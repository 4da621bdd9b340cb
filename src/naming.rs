//! Deriving the output file name from the input file name.
use vstd::prelude::*;
use vstd::string::{StrSliceExecFns, StringExecFns};
use crate::classify::{chars_of, find_char};
use crate::error::ConvertError;

verus! {

/// `k` is the position of the first `.` in `s`.
pub open spec fn first_dot(s: Seq<char>, k: int) -> bool {
    &&& 0 <= k < s.len()
    &&& s[k] == '.'
    &&& forall|j: int| 0 <= j < k ==> s[j] != '.'
}

pub open spec fn has_dot(s: Seq<char>) -> bool {
    exists|k: int| 0 <= k < s.len() && s[k] == '.'
}

/// The file name of the path `s` starts at `p`: just after its last `/`, or
/// at 0 where it has none.
pub open spec fn file_name_start(s: Seq<char>, p: int) -> bool {
    &&& 0 <= p <= s.len()
    &&& (p == 0 || s[p - 1] == '/')
    &&& forall|j: int| p <= j < s.len() ==> s[j] != '/'
}

/// The file name of `s` holds no `.`, so no output name can be derived.
pub open spec fn naming_fails(s: Seq<char>) -> bool {
    exists|p: int| file_name_start(s, p) && !has_dot(#[trigger] s.skip(p))
}

/// `name` is the output name for `s`: the directory part of `s`, then its
/// file name up to the first `.`, then `.ron`.
pub open spec fn output_name(s: Seq<char>, name: Seq<char>) -> bool {
    exists|p: int, k: int|
        file_name_start(s, p) && #[trigger] first_dot(s.skip(p), k) && name == s.take(p) + s.skip(
            p,
        ).take(k) + seq!['.', 'r', 'o', 'n']
}

proof fn lemma_file_name_start_unique(s: Seq<char>, p: int, q: int)
    requires
        file_name_start(s, p),
        file_name_start(s, q),
    ensures
        p == q,
{
    if p < q {
        assert(s[q - 1] == '/');
    } else if q < p {
        assert(s[p - 1] == '/');
    }
}

/// Position just after the last `/` of `v`, or 0.
fn file_name_start_of(v: &Vec<char>) -> (p: usize)
    ensures
        file_name_start(v@, p as int),
{
    let mut i: usize = v.len();
    while i > 0
        invariant
            i <= v@.len(),
            forall|j: int| i <= j < v@.len() ==> v@[j] != '/',
        decreases i,
    {
        if v[i - 1] == '/' {
            return i;
        }
        i = i - 1;
    }
    i
}

/// Derives the output file name, beside the input: the directory part of
/// `filename` is kept, and its file name is cut at its first `.` and
/// followed by `.ron` (`dir/data.v2.csv` gives `dir/data.ron`). Fails where
/// the file name holds no `.`.
pub fn ron_filename(filename: &str) -> (r: Result<String, ConvertError>)
    ensures
        r is Err <==> naming_fails(filename@),
        r is Err ==> r->Err_0 == ConvertError::OutputNaming,
        r is Ok ==> output_name(filename@, r->Ok_0@),
{
    let ghost s = filename@;
    let v = chars_of(filename);
    let p = file_name_start_of(&v);
    let d = find_char(&v, p, v.len(), '.');
    let ghost t = s.skip(p as int);
    if d == v.len() {
        assert(!has_dot(t)) by {
            if has_dot(t) {
                let k = choose|k: int| 0 <= k < t.len() && t[k] == '.';
                assert(t[k] == s[p + k]);
            }
        }
        return Err(ConvertError::OutputNaming);
    }
    let base = String::from_str(filename.substring_char(0, d));
    let name = base.concat(".ron");
    proof {
        reveal_strlit(".ron");
        let k = d - p;
        assert forall|j: int| 0 <= j < k implies t[j] != '.' by {
            assert(t[j] == s[p + j]);
        }
        assert(t[k] == s[d as int]);
        assert(first_dot(t, k));
        assert(name@ =~= s.take(p as int) + t.take(k) + seq!['.', 'r', 'o', 'n']);
        assert(has_dot(t));
        if naming_fails(s) {
            let q = choose|q: int| file_name_start(s, q) && !has_dot(#[trigger] s.skip(q));
            lemma_file_name_start_unique(s, p as int, q);
        }
    }
    Ok(name)
}

} // verus!
