//! The MIME table: an ordered list of (extension, content type) pairs,
//! looked up by a filename's extension — the part of the name from its
//! last dot on. Loading the table from disk happens outside the library;
//! each connection works on its own deep copy.

use vstd::prelude::*;
use vstd::string::StrSliceExecFns;

use crate::errors::LibError;
use crate::tables::{spec_find_exact, lemma_find_exact, lemma_find_exact_at};

verus! {

/// The MIME table and its fallback content type.
#[derive(Debug)]
pub struct Mimetype {
    pub mimetype_vec: Vec<MimetypeData>,
    pub default_mimetype: String,
}

/// One MIME table entry: extension (with its leading dot) and content
/// type.
#[derive(Debug)]
pub struct MimetypeData {
    pub extension: String,
    pub mimetype: String,
}

/// The table as a sequence of (extension, content type) character
/// sequences.
pub open spec fn mime_model(v: Seq<MimetypeData>) -> Seq<(Seq<char>, Seq<char>)> {
    v.map_values(|md: MimetypeData| (md.extension@, md.mimetype@))
}

/// Index of the last dot in `s`, or -1.
pub open spec fn spec_rfind_dot(s: Seq<char>) -> int
    decreases s.len(),
{
    if s.len() == 0 {
        -1
    } else if s.last() == '.' {
        s.len() - 1
    } else {
        spec_rfind_dot(s.drop_last())
    }
}

/// The extension of a filename: from its last dot to its end.
pub open spec fn spec_extension(f: Seq<char>) -> Seq<char> {
    f.skip(spec_rfind_dot(f))
}

/// A filename has an extension: it contains a dot.
pub open spec fn spec_has_extension(f: Seq<char>) -> bool {
    spec_rfind_dot(f) != -1
}

impl MimetypeData {
    /// An entry from its extension and content type.
    pub fn new(e: String, m: String) -> (r: MimetypeData)
        ensures
            r.extension@ == e@,
            r.mimetype@ == m@,
    {
        MimetypeData { extension: e, mimetype: m }
    }

    /// The extension.
    pub fn get_extension(&self) -> (r: String)
        ensures
            r@ == self.extension@,
    {
        self.extension.clone()
    }

    /// The content type.
    pub fn get_mimetype(&self) -> (r: String)
        ensures
            r@ == self.mimetype@,
    {
        self.mimetype.clone()
    }

    /// Replaces the content type.
    pub fn set_mimetype(&mut self, e: String)
        ensures
            final(self).mimetype@ == e@,
            final(self).extension@ == old(self).extension@,
    {
        self.mimetype = e;
    }

    /// Consumes the entry.
    pub fn delete(self) {
    }
}

impl Mimetype {
    /// The content type under the filename's extension, or an error when
    /// the filename has no dot or its extension has no entry.
    #[verifier::loop_isolation(false)]
    pub fn get_mimetype(&self, filename: &String) -> (r: Result<String, LibError>)
        ensures
            ({
                let f = spec_find_exact(mime_model(self.mimetype_vec@), spec_extension(filename@));
                &&& (r is Ok <==> (spec_has_extension(filename@) && f != -1))
                &&& r is Ok ==> r->Ok_0@ == mime_model(self.mimetype_vec@)[f].1
                &&& r is Err ==> r->Err_0 == LibError::MimetypeNotFound
            }),
    {
        let l = filename.as_str().unicode_len();
        let mut i: usize = l;
        proof {
            assert(filename@.take(l as int) =~= filename@);
        }
        while i > 0 && filename.as_str().get_char(i - 1) != '.'
            invariant
                i <= l,
                l == filename@.len(),
                spec_rfind_dot(filename@) == spec_rfind_dot(filename@.take(i as int)),
            decreases i,
        {
            proof {
                let t = filename@.take(i as int);
                assert(t.last() == filename@[i - 1]);
                assert(t.drop_last() =~= filename@.take(i - 1));
            }
            i = i - 1;
        }
        if i == 0 {
            proof {
                assert(filename@.take(0) =~= Seq::<char>::empty());
            }
            return Err(LibError::MimetypeNotFound);
        }
        proof {
            let t = filename@.take(i as int);
            assert(t.last() == filename@[i - 1]);
            assert(spec_rfind_dot(filename@) == i - 1);
        }
        let ext = filename.as_str().substring_char(i - 1, l);
        let ext_string = ext.to_owned();
        proof {
            assert(filename@.subrange(i - 1, l as int) =~= filename@.skip(i - 1));
            assert(ext_string@ == spec_extension(filename@));
        }
        let ghost m = mime_model(self.mimetype_vec@);
        let n = self.mimetype_vec.len();
        let mut j: usize = 0;
        while j < n
            invariant
                j <= n,
                n == self.mimetype_vec@.len(),
                m == mime_model(self.mimetype_vec@),
                ext_string@ == spec_extension(filename@),
                forall|t: int| 0 <= t < j ==> #[trigger] m[t].0 != ext_string@,
            decreases n - j,
        {
            if self.mimetype_vec[j].extension == ext_string {
                proof {
                    assert(m[j as int].0 == self.mimetype_vec@[j as int].extension@);
                    lemma_find_exact_at(m, ext_string@, j as int);
                }
                return Ok(self.mimetype_vec[j].mimetype.clone());
            }
            proof {
                assert(m[j as int].0 == self.mimetype_vec@[j as int].extension@);
            }
            j = j + 1;
        }
        proof {
            lemma_find_exact(m, ext_string@);
            assert(spec_find_exact(m, ext_string@) == -1) by {
                if spec_find_exact(m, ext_string@) != -1 {
                    assert(m[spec_find_exact(m, ext_string@)].0 == ext_string@);
                }
            }
        }
        Err(LibError::MimetypeNotFound)
    }

    /// The content type under the filename's extension, or `default`.
    pub fn get_mimetype_or(&self, filename: &String, default: &str) -> (r: String)
        ensures
            ({
                let hit = spec_has_extension(filename@) && spec_find_exact(
                    mime_model(self.mimetype_vec@),
                    spec_extension(filename@),
                ) != -1;
                &&& hit ==> r@ == mime_model(self.mimetype_vec@)[spec_find_exact(
                    mime_model(self.mimetype_vec@),
                    spec_extension(filename@),
                )].1
                &&& !hit ==> r@ == default@
            }),
    {
        match self.get_mimetype(filename) {
            Ok(mt) => mt,
            Err(_) => default.to_owned(),
        }
    }

    /// The content type under the filename's extension, or the table's
    /// own fallback.
    pub fn get_mimetype_default(&self, filename: &String) -> (r: String)
        ensures
            ({
                let hit = spec_has_extension(filename@) && spec_find_exact(
                    mime_model(self.mimetype_vec@),
                    spec_extension(filename@),
                ) != -1;
                &&& hit ==> r@ == mime_model(self.mimetype_vec@)[spec_find_exact(
                    mime_model(self.mimetype_vec@),
                    spec_extension(filename@),
                )].1
                &&& !hit ==> r@ == self.default_mimetype@
            }),
    {
        match self.get_mimetype(filename) {
            Ok(mt) => mt,
            Err(_) => self.default_mimetype.clone(),
        }
    }

    /// A deep, independent copy of the table.
    pub fn to_owned(&self) -> (r: Mimetype)
        ensures
            mime_model(r.mimetype_vec@) == mime_model(self.mimetype_vec@),
            r.default_mimetype@ == self.default_mimetype@,
    {
        let mut new_mt: Vec<MimetypeData> = Vec::new();
        let n = self.mimetype_vec.len();
        let mut i: usize = 0;
        while i < n
            invariant
                i <= n,
                n == self.mimetype_vec@.len(),
                mime_model(new_mt@) == mime_model(self.mimetype_vec@).take(i as int),
            decreases n - i,
        {
            let ghost pre = new_mt@;
            new_mt.push(
                MimetypeData {
                    extension: self.mimetype_vec[i].get_extension(),
                    mimetype: self.mimetype_vec[i].get_mimetype(),
                },
            );
            proof {
                assert(mime_model(new_mt@) =~= mime_model(pre).push(
                    mime_model(self.mimetype_vec@)[i as int],
                ));
                assert(mime_model(self.mimetype_vec@).take(i + 1 as int) =~= mime_model(
                    self.mimetype_vec@,
                ).take(i as int).push(mime_model(self.mimetype_vec@)[i as int]));
            }
            i = i + 1;
        }
        proof {
            assert(mime_model(self.mimetype_vec@).take(n as int) =~= mime_model(
                self.mimetype_vec@,
            ));
        }
        Mimetype { mimetype_vec: new_mt, default_mimetype: self.default_mimetype.clone() }
    }

    /// Consumes the table.
    pub fn delete(self) {
    }
}

} // verus!
