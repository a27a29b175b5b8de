//! Decisions about the stored orbital elements: when the local copy must
//! be fetched again, which part of a serialised record is stored, which
//! directory entries hold records, and a satellite's launch year.
use vstd::prelude::*;
use vstd::string::StringSliceAdditionalSpecFns;
use vstd::utf8::{encode_scalar, encode_utf8, is_char_boundary};
use substring::Substring;

use crate::text::{chars_of, contains, occurs_in};

verus! {

/// Nanoseconds in an hour: the age beyond which stored elements are
/// fetched again.
pub const REFRESH_AGE_NANOS: i128 = 3_600_000_000_000;

/// Whether the stored elements must be fetched again, given how long ago
/// they were fetched (`None` when no fetch time is recorded): when there
/// is no record, or the record is more than an hour old.
pub fn not_updated(age_nanos: Option<i128>) -> (stale: bool)
    ensures
        stale == match age_nanos {
            None => true,
            Some(age) => age > REFRESH_AGE_NANOS,
        },
{
    match age_nanos {
        None => true,
        Some(age) => age > REFRESH_AGE_NANOS,
    }
}

/// Whether a directory entry, as its path is printed, holds a stored
/// record: when the text `.json` occurs in it.
pub fn is_elements_file(path_text: &str) -> (b: bool)
    ensures
        b == occurs_in(path_text@, seq!['.', 'j', 's', 'o', 'n']),
{
    proof {
        reveal_strlit(".json");
        assert(".json"@ =~= seq!['.', 'j', 's', 'o', 'n']);
    }
    contains(path_text, ".json")
}

/// What `Substring::substring` returns for `s`: the characters from
/// `start` up to `end`, both counted in characters and cut at the end of
/// `s`, or nothing when `end <= start`.
pub open spec fn char_range(s: Seq<char>, start: int, end: int) -> Seq<char> {
    if end <= start {
        Seq::empty()
    } else {
        let len = s.len() as int;
        s.subrange(if start < len { start } else { len }, if end < len { end } else { len })
    }
}

/// Calls `Substring::substring` of the substring crate. Trusted: it
/// returns the characters of `s` from index `start` up to index `end`,
/// counted in characters, with both ends cut at the end of `s`, and the
/// empty string when `end <= start`.
#[verifier::external_body]
fn substring_chars(s: &str, start: usize, end: usize) -> (r: &str)
    ensures
        r@ == char_range(s@, start as int, end as int),
{
    s.substring(start, end)
}

/// The number of bytes UTF-8 takes for `c`.
fn utf8_width(c: char) -> (w: usize)
    ensures
        w == encode_scalar(c as u32).len(),
{
    let u = c as u32;
    if u <= 0x7f {
        1
    } else if u <= 0x7ff {
        2
    } else if u <= 0xffff {
        assert(!(0xd800 <= u <= 0xdfff)) by {
            vstd::utf8::char_is_scalar(c);
        }
        3
    } else {
        4
    }
}

proof fn lemma_encode_utf8_concat(a: Seq<char>, b: Seq<char>)
    ensures
        encode_utf8(a + b) == encode_utf8(a) + encode_utf8(b),
    decreases a.len(),
{
    if a.len() == 0 {
        assert(a + b =~= b);
        assert(encode_utf8(a) + encode_utf8(b) =~= encode_utf8(b));
    } else {
        lemma_encode_utf8_concat(a.drop_first(), b);
        assert((a + b).drop_first() =~= a.drop_first() + b);
        assert((a + b)[0] == a[0]);
        assert(encode_scalar(a[0] as u32) + (encode_utf8(a.drop_first()) + encode_utf8(b))
            =~= (encode_scalar(a[0] as u32) + encode_utf8(a.drop_first())) + encode_utf8(b));
    }
}

proof fn lemma_encode_utf8_take(s: Seq<char>, i: int)
    requires
        0 <= i < s.len(),
    ensures
        encode_utf8(s.take(i + 1)).len() == encode_utf8(s.take(i)).len() + encode_scalar(
            s[i] as u32,
        ).len(),
        encode_utf8(s.take(i + 1)).len() <= encode_utf8(s).len(),
{
    lemma_encode_utf8_concat(s.take(i), seq![s[i]]);
    assert(s.take(i) + seq![s[i]] =~= s.take(i + 1));
    assert(encode_utf8(seq![s[i]]) =~= encode_scalar(s[i] as u32)) by {
        let one = seq![s[i]];
        assert(one.drop_first() =~= Seq::<char>::empty());
        assert(encode_utf8(one.drop_first()) =~= Seq::<u8>::empty());
        assert(encode_utf8(one) == encode_scalar(one[0] as u32) + encode_utf8(one.drop_first()));
    }
    lemma_encode_utf8_concat(s.take(i + 1), s.skip(i + 1));
    assert(s.take(i + 1) + s.skip(i + 1) =~= s);
}

/// `i` is the index of the first `}` in `s`.
pub open spec fn first_brace_at(s: Seq<char>, i: int) -> bool {
    &&& 0 <= i < s.len()
    &&& s[i] == '}'
    &&& forall|j: int| 0 <= j < i ==> s[j] != '}'
}

/// The stored part of a serialised elements record: it is cut after the
/// first `}`, where that cut is placed by taking the byte offset of the
/// `}` as a count of characters (the two agree when every character
/// before it is ASCII).
pub fn element_record(json: &str) -> (record: String)
    requires
        occurs_in(json@, seq!['}']),
        encode_utf8(json@).len() < usize::MAX,
    ensures
        exists|i: int|
            first_brace_at(json@, i) && record@ == char_range(
                json@,
                0,
                encode_utf8(json@.take(i)).len() as int + 1,
            ),
{
    let c = chars_of(json);
    let mut i: usize = 0;
    let mut bytes: usize = 0;
    let ghost k = choose|k: int|
        0 <= k && k + 1 <= json@.len() && #[trigger] json@.subrange(k, k + 1) == seq!['}'];
    assert(json@[k] == json@.subrange(k, k + 1)[0]);
    assert(json@.take(0) =~= Seq::<char>::empty());
    while c[i] != '}'
        invariant
            c@ == json@,
            0 <= k < c.len(),
            c@[k] == '}',
            i <= k,
            forall|j: int| 0 <= j < i ==> json@[j] != '}',
            bytes == encode_utf8(json@.take(i as int)).len(),
            encode_utf8(json@).len() < usize::MAX,
        decreases k - i,
    {
        proof {
            lemma_encode_utf8_take(json@, i as int);
        }
        bytes = bytes + utf8_width(c[i]);
        i = i + 1;
    }
    assert(first_brace_at(json@, i as int));
    proof {
        lemma_encode_utf8_take(json@, i as int);
        assert(encode_scalar('}' as u32).len() == 1);
    }
    let record = substring_chars(json, 0, bytes + 1).to_owned();
    record
}

/// The launch year in an international designator: its first four bytes,
/// which must end at a character boundary.
pub fn launch_year(designator: &str) -> (year: String)
    requires
        is_char_boundary(designator.spec_bytes(), 4),
    ensures
        encode_utf8(year@) == designator.spec_bytes().subrange(0, 4),
{
    let (head, _rest) = designator.split_at(4);
    head.to_owned()
}

} // verus!
