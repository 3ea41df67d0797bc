//! Object-storage key logic: building the key an upload is stored under,
//! and recovering the key from a presigned URL for deletion. The S3 calls
//! themselves are I/O and stay with the caller.

use vstd::prelude::*;
use crate::text::chars_of;
use crate::text::string_from_chars;
use crate::text::find_sub_from;
use crate::text::find_sub_exec;
use crate::text::lemma_find_sub_shift;
use crate::text::lower_of;
use crate::text::lowercase;
use crate::project::ext_of;
use crate::project::extension_of;

verus! {

/// Relies on uuid::Uuid::new_v4 and its hyphenated Display form: a fresh
/// random identifier, 36 characters long; nothing is assumed of its value.
#[verifier::external_body]
fn new_uuid_string() -> (r: String)
    ensures
        r@.len() == 36,
{
    uuid::Uuid::new_v4().to_string()
}

/// Relies on chrono's Utc::now and its `%Y-%m-%d` formatter: the current
/// date; nothing is assumed of its value.
#[verifier::external_body]
fn utc_date_string() -> (r: String)
{
    chrono::Utc::now().format("%Y-%m-%d").to_string()
}

/// The key an upload is stored under: a dated folder, a fresh identifier,
/// and the file's lower-cased extension.
pub open spec fn upload_key_spec(date: Seq<char>, id: Seq<char>, ext: Seq<char>) -> Seq<char> {
    "images/"@ + date + seq!['/'] + id + seq!['.'] + ext
}

/// Assembles an upload key from its parts.
pub fn upload_key(date: &str, id: &str, ext_lower: &str) -> (r: String)
    ensures
        r@ == upload_key_spec(date@, id@, ext_lower@),
{
    proof {
        reveal_strlit("images/");
        reveal_strlit("/");
        reveal_strlit(".");
    }
    let mut s = String::from_str("images/");
    s.append(date);
    s.append("/");
    s.append(id);
    s.append(".");
    s.append(ext_lower);
    proof {
        assert(s@ =~= upload_key_spec(date@, id@, ext_lower@));
    }
    s
}

/// A fresh upload key for a file name: today's date, a new identifier, and
/// the file's extension lower-cased.
pub fn make_upload_key(file_name: &str) -> (r: String)
    ensures
        exists|d: Seq<char>, u: Seq<char>|
            r@ == #[trigger] upload_key_spec(d, u, lower_of(ext_of(file_name@))) && u.len() == 36,
{
    let date = utc_date_string();
    let id = new_uuid_string();
    let ext = extension_of(file_name);
    let low = lowercase(ext.as_str());
    let r = upload_key(date.as_str(), id.as_str(), low.as_str());
    proof {
        assert(r@ == upload_key_spec(date@, id@, lower_of(ext_of(file_name@))));
    }
    r
}

/// First index of `c` at or after `i`, or the length if none.
pub open spec fn find_char_from(s: Seq<char>, c: char, i: int) -> int
    decreases s.len() - i,
{
    if !(0 <= i && i < s.len()) {
        s.len() as int
    } else if s[i] == c {
        i
    } else {
        find_char_from(s, c, i + 1)
    }
}

/// The storage key inside a presigned URL: what stands between the first
/// `.amazonaws.com/` and the next one (or the end), cut at the first `?`.
pub open spec fn s3_key_of(url: Seq<char>) -> Option<Seq<char>> {
    let pat = ".amazonaws.com/"@;
    match find_sub_from(url, pat, 0) {
        None => None,
        Some(i) => {
            let after = url.skip(i + pat.len());
            let stop = match find_sub_from(after, pat, 0) {
                Some(j) => j,
                None => after.len() as int,
            };
            let piece = after.take(stop);
            Some(piece.take(find_char_from(piece, '?', 0)))
        },
    }
}

/// Recovers the storage key from a presigned URL, if it holds one.
pub fn extract_s3_key(url: &str) -> (r: Option<String>)
    ensures
        match r {
            Some(k) => s3_key_of(url@) == Some(k@),
            None => s3_key_of(url@) is None,
        },
{
    proof {
        reveal_strlit(".amazonaws.com/");
    }
    let cs = chars_of(url);
    let ps = chars_of(".amazonaws.com/");
    let n = cs.len();
    let i = match find_sub_exec(cs.as_slice(), ps.as_slice(), 0) {
        None => {
            return None;
        },
        Some(i) => i,
    };
    let start = i + ps.len();
    let ghost after = url@.skip(start as int);
    let stop = match find_sub_exec(cs.as_slice(), ps.as_slice(), start) {
        Some(j) => j,
        None => n,
    };
    proof {
        lemma_find_sub_shift(url@, ps@, start as int, start as int);
    }
    let ghost stop_rel = stop - start;
    proof {
        assert(match find_sub_from(after, ps@, 0) {
            Some(j) => stop_rel == j,
            None => stop_rel == after.len(),
        });
    }
    let mut q = start;
    while q < stop && cs[q] != '?'
        invariant
            start <= q <= stop <= n,
            n == cs@.len(),
            cs@ == url@,
            after == url@.skip(start as int),
            stop - start <= after.len(),
            find_char_from(after.take(stop - start), '?', 0) == find_char_from(
                after.take(stop - start),
                '?',
                q - start,
            ),
        decreases stop - q,
    {
        proof {
            assert(after.take(stop - start)[q - start] == url@[q as int]);
        }
        q = q + 1;
    }
    let ghost piece = after.take(stop - start);
    proof {
        if q < stop {
            assert(piece[q - start] == url@[q as int]);
            assert(find_char_from(piece, '?', q - start) == q - start);
        } else {
            assert(find_char_from(piece, '?', q - start) == piece.len());
        }
    }
    let out = string_from_chars(&cs.as_slice()[start..q]);
    proof {
        assert(out@ =~= piece.take(find_char_from(piece, '?', 0)));
    }
    Some(out)
}

} // verus!
