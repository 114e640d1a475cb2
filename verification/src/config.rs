//! The configuration table: an ordered mapping of string keys to string
//! values, last write wins on a duplicate key, queried by key with a
//! caller-supplied default. Loading it from disk happens outside the
//! library; each connection works on its own deep copy.

use vstd::prelude::*;

use crate::tables::{spec_find_exact, lemma_find_exact, lemma_find_exact_at};

verus! {

/// An ordered key-to-value table of configuration entries.
#[derive(Debug)]
pub struct Configuration(pub Vec<ConfUnit>);

/// One configuration entry: key and value.
#[derive(Debug)]
pub struct ConfUnit(pub String, pub String);

/// The configuration as a sequence of (key, value) character sequences.
pub open spec fn conf_model(c: Seq<ConfUnit>) -> Seq<(Seq<char>, Seq<char>)> {
    c.map_values(|cu: ConfUnit| (cu.0@, cu.1@))
}

/// The table after setting `k` to `v`: the first entry keyed `k` takes
/// the value `v`, and when none exists, (`k`, `v`) is appended.
pub open spec fn spec_set_value(m: Seq<(Seq<char>, Seq<char>)>, k: Seq<char>, v: Seq<char>) -> Seq<
    (Seq<char>, Seq<char>),
> {
    let f = spec_find_exact(m, k);
    if f == -1 {
        m.push((k, v))
    } else {
        m.update(f, (k, v))
    }
}

impl Configuration {
    /// The value under `key`, or `default` when the key is absent; on a
    /// repeated key the first entry decides, which after
    /// [`set_value`](Configuration::set_value) holds the last write.
    pub fn get_value_or(&self, key: &str, default: &str) -> (r: String)
        ensures
            ({
                let f = spec_find_exact(conf_model(self.0@), key@);
                &&& f == -1 ==> r@ == default@
                &&& f != -1 ==> r@ == conf_model(self.0@)[f].1
            }),
    {
        let ghost m = conf_model(self.0@);
        let key_string = key.to_owned();
        let n = self.0.len();
        let mut i: usize = 0;
        while i < n
            invariant
                i <= n,
                n == self.0@.len(),
                m == conf_model(self.0@),
                key_string@ == key@,
                forall|j: int| 0 <= j < i ==> #[trigger] m[j].0 != key@,
            decreases n - i,
        {
            if self.0[i].0 == key_string {
                proof {
                    assert(m[i as int].0 == self.0@[i as int].0@);
                    lemma_find_exact_at(m, key@, i as int);
                }
                return self.0[i].1.clone();
            }
            proof {
                assert(m[i as int].0 == self.0@[i as int].0@);
            }
            i = i + 1;
        }
        proof {
            lemma_find_exact(m, key@);
            assert(spec_find_exact(m, key@) == -1) by {
                if spec_find_exact(m, key@) != -1 {
                    assert(m[spec_find_exact(m, key@)].0 == key@);
                }
            }
        }
        default.to_owned()
    }

    /// Sets `key` to `value`, last write wins: an existing entry under
    /// the key is overwritten in place, a new key is appended.
    pub fn set_value(&mut self, key: &str, value: &str)
        ensures
            conf_model(final(self).0@) == spec_set_value(conf_model(old(self).0@), key@, value@),
    {
        let ghost m = conf_model(old(self).0@);
        let key_string = key.to_owned();
        let n = self.0.len();
        let mut i: usize = 0;
        while i < n
            invariant
                i <= n,
                n == self.0@.len(),
                *self == *old(self),
                m == conf_model(self.0@),
                key_string@ == key@,
                forall|j: int| 0 <= j < i ==> #[trigger] m[j].0 != key@,
            decreases n - i,
        {
            if self.0[i].0 == key_string {
                proof {
                    assert(m[i as int].0 == self.0@[i as int].0@);
                    lemma_find_exact_at(m, key@, i as int);
                }
                let unit = ConfUnit(key_string, value.to_owned());
                self.0.remove(i);
                self.0.insert(i, unit);
                proof {
                    assert(conf_model(self.0@) =~= spec_set_value(m, key@, value@));
                }
                return ;
            }
            proof {
                assert(m[i as int].0 == self.0@[i as int].0@);
            }
            i = i + 1;
        }
        proof {
            lemma_find_exact(m, key@);
            assert(spec_find_exact(m, key@) == -1) by {
                if spec_find_exact(m, key@) != -1 {
                    assert(m[spec_find_exact(m, key@)].0 == key@);
                }
            }
        }
        self.0.push(ConfUnit(key_string, value.to_owned()));
        proof {
            assert(conf_model(self.0@) =~= spec_set_value(m, key@, value@));
        }
    }

    /// A deep, independent copy of the table.
    pub fn to_owned(&self) -> (r: Configuration)
        ensures
            conf_model(r.0@) == conf_model(self.0@),
    {
        let mut config: Vec<ConfUnit> = Vec::new();
        let n = self.0.len();
        let mut i: usize = 0;
        while i < n
            invariant
                i <= n,
                n == self.0@.len(),
                conf_model(config@) == conf_model(self.0@).take(i as int),
            decreases n - i,
        {
            let ghost pre = config@;
            config.push(ConfUnit(self.0[i].0.clone(), self.0[i].1.clone()));
            proof {
                assert(conf_model(config@) =~= conf_model(pre).push(
                    (self.0@[i as int].0@, self.0@[i as int].1@),
                ));
                assert(conf_model(self.0@).take(i + 1 as int) =~= conf_model(self.0@).take(
                    i as int,
                ).push(conf_model(self.0@)[i as int]));
            }
            i = i + 1;
        }
        proof {
            assert(conf_model(self.0@).take(n as int) =~= conf_model(self.0@));
        }
        Configuration(config)
    }
}

} // verus!
