//! Credential registry: access keys mapped to secret keys, populated at
//! startup and read-only while requests are served.

use vstd::prelude::*;
use vstd::string::*;

use crate::text::{lex_lt, StrOrder};

verus! {

/// The map denoted by a registration history: the last registration for an
/// access key wins.
pub open spec fn as_credential_map(s: Seq<(String, String)>) -> Map<Seq<char>, Seq<char>>
    decreases s.len(),
{
    if s.len() == 0 {
        Map::empty()
    } else {
        as_credential_map(s.drop_last()).insert(s.last().0@, s.last().1@)
    }
}

/// Registry of credentials: a mapping from access key to secret key with
/// unique keys, where re-registering an access key replaces its secret.
#[derive(Debug)]
pub struct CredentialStore {
    entries: Vec<(String, String)>,
}

impl View for CredentialStore {
    type V = Map<Seq<char>, Seq<char>>;

    closed spec fn view(&self) -> Map<Seq<char>, Seq<char>> {
        as_credential_map(self.entries@)
    }
}

impl CredentialStore {
    /// An empty registry.
    pub fn new() -> (r: Self)
        ensures
            r@ == Map::<Seq<char>, Seq<char>>::empty(),
    {
        CredentialStore { entries: Vec::new() }
    }

    /// Registers a credential. A later registration for the same access key
    /// overrides the earlier secret.
    pub fn register(&mut self, access_key: String, secret_key: String)
        ensures
            final(self)@ == old(self)@.insert(access_key@, secret_key@),
    {
        let ghost olds = self.entries@;
        let ghost k = access_key@;
        let ghost v = secret_key@;
        self.entries.push((access_key, secret_key));
        proof {
            assert(self.entries@.drop_last() =~= olds);
            assert(self.entries@.last().0@ == k);
            assert(self.entries@.last().1@ == v);
        }
    }

    /// Looks up the secret key most recently registered for an access key.
    pub fn lookup(&self, access_key: &str) -> (r: Option<&str>)
        ensures
            match r {
                Some(s) => self@.contains_key(access_key@) && self@[access_key@] == s@,
                None => !self@.contains_key(access_key@),
            },
    {
        let ghost es = self.entries@;
        let ghost k = access_key@;
        let mut i: usize = self.entries.len();
        proof {
            assert(es.take(i as int) =~= es);
        }
        loop
            invariant
                i <= es.len(),
                es == self.entries@,
                k == access_key@,
                self@.contains_key(k) <==> as_credential_map(es.take(i as int)).contains_key(k),
                self@.contains_key(k) ==> self@[k] == as_credential_map(es.take(i as int))[k],
            decreases i,
        {
            if i == 0 {
                proof {
                    assert(es.take(0) =~= Seq::empty());
                }
                return None;
            }
            proof {
                let t = es.take(i as int);
                assert(t.len() == i);
                assert(t.last() == es[i - 1]);
                assert(t.drop_last() =~= es.take(i as int - 1));
            }
            match crate::text::str_compare(self.entries[i - 1].0.as_str(), access_key) {
                StrOrder::Equal => {
                    let v: &str = self.entries[i - 1].1.as_str();
                    proof {
                        assert(as_credential_map(es.take(i as int)).contains_key(k));
                        assert(as_credential_map(es.take(i as int))[k] == v@);
                    }
                    return Some(v);
                },
                _ => {
                    proof {
                        assert(es[i - 1].0@ != k);
                    }
                    i = i - 1;
                },
            }
        }
    }
}

} // verus!
