//! Byte offsets into text, as `String` counts them: the edit cursors of a note
//! are byte offsets, and inserting or removing at one is only defined on a
//! character boundary.
use vstd::prelude::*;
use vstd::utf8::*;
use crate::text::{chars_of, string_of};

verus! {

/// The number of bytes `c` takes in UTF-8 (`char::len_utf8`).
pub open spec fn width(c: char) -> nat {
    if (c as u32) < 0x80 {
        1
    } else if (c as u32) < 0x800 {
        2
    } else if (c as u32) < 0x10000 {
        3
    } else {
        4
    }
}

/// The number of bytes `s` takes in UTF-8 (`str::len`).
pub open spec fn byte_len(s: Seq<char>) -> nat
    decreases s.len(),
{
    if s.len() == 0 {
        0
    } else {
        byte_len(s.drop_last()) + width(s.last())
    }
}

/// Whether byte offset `b` falls between two characters of `s` (or at an end).
pub open spec fn is_boundary(s: Seq<char>, b: int) -> bool {
    exists|k: int| 0 <= k <= s.len() && byte_len(s.take(k)) == b
}

/// The number of characters before byte offset `b`, when `b` is a boundary.
pub open spec fn index_at(s: Seq<char>, b: int) -> int {
    choose|k: int| 0 <= k <= s.len() && byte_len(s.take(k)) == b
}

/// `s` with `c` inserted at byte offset `b` (`String::insert`).
pub open spec fn insert_at_byte(s: Seq<char>, b: int, c: char) -> Seq<char> {
    s.insert(index_at(s, b), c)
}

/// `s` without the character that starts at byte offset `b` (`String::remove`).
pub open spec fn remove_at_byte(s: Seq<char>, b: int) -> Seq<char> {
    s.remove(index_at(s, b))
}

pub proof fn lemma_byte_len_take_step(s: Seq<char>, k: int)
    requires
        0 <= k < s.len(),
    ensures
        byte_len(s.take(k + 1)) == byte_len(s.take(k)) + width(s[k]),
{
    assert(s.take(k + 1).drop_last() =~= s.take(k));
}

pub proof fn lemma_byte_len_monotonic(s: Seq<char>, i: int, j: int)
    requires
        0 <= i <= j <= s.len(),
    ensures
        byte_len(s.take(i)) + (j - i) <= byte_len(s.take(j)),
    decreases j - i,
{
    if i < j {
        lemma_byte_len_take_step(s, j - 1);
        lemma_byte_len_monotonic(s, i, j - 1);
    }
}

pub proof fn lemma_byte_len_take_le(s: Seq<char>, j: int)
    requires
        0 <= j <= s.len(),
    ensures
        byte_len(s.take(j)) <= byte_len(s),
{
    assert(s.take(s.len() as int) =~= s);
    lemma_byte_len_monotonic(s, j, s.len() as int);
}

/// Only one character count lies before a boundary.
pub proof fn lemma_index_at(s: Seq<char>, k: int)
    requires
        0 <= k <= s.len(),
    ensures
        is_boundary(s, byte_len(s.take(k)) as int),
        index_at(s, byte_len(s.take(k)) as int) == k,
{
    let b = byte_len(s.take(k)) as int;
    assert(0 <= k <= s.len() && byte_len(s.take(k)) == b);
    let j = index_at(s, b);
    if j < k {
        lemma_byte_len_monotonic(s, j, k);
    } else if k < j {
        lemma_byte_len_monotonic(s, k, j);
    }
}

pub proof fn lemma_byte_len_prepend(c: char, t: Seq<char>)
    ensures
        byte_len(seq![c] + t) == width(c) + byte_len(t),
    decreases t.len(),
{
    let u = seq![c] + t;
    if t.len() > 0 {
        assert(u.drop_last() =~= seq![c] + t.drop_last());
        assert(u.last() == t.last());
        lemma_byte_len_prepend(c, t.drop_last());
        assert(byte_len(u) == byte_len(u.drop_last()) + width(u.last()));
        assert(byte_len(t) == byte_len(t.drop_last()) + width(t.last()));
    } else {
        assert(u.drop_last() =~= Seq::<char>::empty());
        assert(u.last() == c);
        assert(byte_len(u) == byte_len(u.drop_last()) + width(u.last()));
        assert(byte_len(Seq::<char>::empty()) == 0);
        assert(t =~= Seq::<char>::empty());
    }
}

/// `byte_len` is the length of the UTF-8 encoding.
pub proof fn lemma_byte_len_encoding(s: Seq<char>)
    ensures
        byte_len(s) == encode_utf8(s).len(),
    decreases s.len(),
{
    if s.len() > 0 {
        lemma_byte_len_encoding(s.drop_first());
        assert(s =~= seq![s[0]] + s.drop_first());
        lemma_byte_len_prepend(s[0], s.drop_first());
        char_is_scalar(s[0]);
    }
}

pub proof fn lemma_byte_len_concat(a: Seq<char>, b: Seq<char>)
    ensures
        byte_len(a + b) == byte_len(a) + byte_len(b),
    decreases b.len(),
{
    if b.len() == 0 {
        assert(a + b =~= a);
    } else {
        assert((a + b).drop_last() =~= a + b.drop_last());
        assert((a + b).last() == b.last());
        lemma_byte_len_concat(a, b.drop_last());
    }
}

pub proof fn lemma_byte_len_single(c: char)
    ensures
        byte_len(seq![c]) == width(c),
{
    assert(seq![c].drop_last() =~= Seq::<char>::empty());
    assert(seq![c].last() == c);
    assert(byte_len(Seq::<char>::empty()) == 0);
    assert(byte_len(seq![c]) == byte_len(seq![c].drop_last()) + width(seq![c].last()));
}

/// Inserting at a boundary adds the character's width.
pub proof fn lemma_insert_at_byte(s: Seq<char>, b: int, c: char)
    requires
        is_boundary(s, b),
    ensures
        byte_len(insert_at_byte(s, b, c)) == byte_len(s) + width(c),
        0 <= b <= byte_len(s),
{
    let k = index_at(s, b);
    assert(s.insert(k, c) =~= s.take(k) + (seq![c] + s.skip(k)));
    assert(s =~= s.take(k) + s.skip(k));
    lemma_byte_len_concat(s.take(k), seq![c] + s.skip(k));
    lemma_byte_len_concat(seq![c], s.skip(k));
    lemma_byte_len_concat(s.take(k), s.skip(k));
    lemma_byte_len_single(c);
}

/// Removing the character at a boundary `b < byte_len(s)` leaves at least `b` bytes.
pub proof fn lemma_remove_at_byte(s: Seq<char>, b: int)
    requires
        is_boundary(s, b),
        b < byte_len(s),
    ensures
        0 <= index_at(s, b) < s.len(),
        byte_len(remove_at_byte(s, b)) == byte_len(s) - width(s[index_at(s, b)]),
        b <= byte_len(remove_at_byte(s, b)),
{
    let k = index_at(s, b);
    assert(s.take(s.len() as int) =~= s);
    assert(k < s.len());
    assert(s.remove(k) =~= s.take(k) + s.skip(k + 1));
    assert(s =~= s.take(k) + (seq![s[k]] + s.skip(k + 1)));
    lemma_byte_len_concat(s.take(k), s.skip(k + 1));
    lemma_byte_len_concat(s.take(k), seq![s[k]] + s.skip(k + 1));
    lemma_byte_len_concat(seq![s[k]], s.skip(k + 1));
    lemma_byte_len_single(s[k]);
}

/// The UTF-8 width of a character (`char::len_utf8`).
pub fn char_width(c: char) -> (n: usize)
    ensures
        n == width(c),
{
    let v = c as u32;
    if v < 0x80 {
        1
    } else if v < 0x800 {
        2
    } else if v < 0x10000 {
        3
    } else {
        4
    }
}

/// The byte length of a string (`str::len`); a `String` never holds more
/// than `isize::MAX` bytes.
pub fn text_len(s: &String) -> (n: usize)
    requires
        byte_len(s@) <= isize::MAX,
    ensures
        n == byte_len(s@),
{
    proof {
        lemma_byte_len_encoding(s@);
    }
    s.as_str().len()
}

/// The number of characters before byte offset `b` of `s`, if `b` is a boundary.
pub fn char_index_at(s: &[char], b: usize) -> (r: Option<usize>)
    ensures
        r matches Some(k) ==> k <= s@.len() && byte_len(s@.take(k as int)) == b && index_at(
            s@,
            b as int,
        ) == k,
        r is Some <==> is_boundary(s@, b as int),
{
    let mut k: usize = 0;
    let mut off: usize = 0;
    assert(s@.take(0) =~= Seq::<char>::empty());
    while k < s.len()
        invariant
            k <= s@.len(),
            off == byte_len(s@.take(k as int)),
            off <= b,
        decreases s@.len() - k,
    {
        if off == b {
            proof {
                lemma_index_at(s@, k as int);
            }
            return Some(k);
        }
        let w = char_width(s[k]);
        proof {
            lemma_byte_len_take_step(s@, k as int);
        }
        if w > b - off {
            proof {
                assert forall|j: int| 0 <= j <= s@.len() implies byte_len(s@.take(j)) != b by {
                    if j <= k {
                        lemma_byte_len_monotonic(s@, j, k as int);
                    } else {
                        lemma_byte_len_monotonic(s@, k + 1, j);
                    }
                }
            }
            return None;
        }
        off = off + w;
        k += 1;
    }
    if off == b {
        proof {
            lemma_index_at(s@, k as int);
        }
        Some(k)
    } else {
        proof {
            assert forall|j: int| 0 <= j <= s@.len() implies byte_len(s@.take(j)) != b by {
                lemma_byte_len_monotonic(s@, j, k as int);
            }
        }
        None
    }
}

/// `text` with `c` inserted at byte offset `b`.
pub fn insert_char_at(text: &String, b: usize, c: char) -> (r: String)
    requires
        is_boundary(text@, b as int),
    ensures
        r@ == insert_at_byte(text@, b as int, c),
{
    let mut chars = chars_of(text.as_str());
    let k = char_index_at(chars.as_slice(), b);
    let k = k.unwrap();
    chars.insert(k, c);
    string_of(chars.as_slice())
}

/// `text` without the character starting at byte offset `b`.
pub fn remove_char_at(text: &String, b: usize) -> (r: String)
    requires
        is_boundary(text@, b as int),
        b < byte_len(text@),
    ensures
        r@ == remove_at_byte(text@, b as int),
{
    let mut chars = chars_of(text.as_str());
    let k = char_index_at(chars.as_slice(), b);
    let k = k.unwrap();
    proof {
        assert(chars@.take(chars@.len() as int) =~= chars@);
        if k as int == chars@.len() {
            assert(byte_len(chars@.take(k as int)) == byte_len(text@));
        }
    }
    chars.remove(k);
    string_of(chars.as_slice())
}


/// Whether `s` takes at most `limit` bytes in UTF-8.
pub fn byte_len_within(s: &[char], limit: usize) -> (r: bool)
    requires
        limit <= isize::MAX,
    ensures
        r == (byte_len(s@) <= limit),
{
    let mut k: usize = 0;
    let mut off: usize = 0;
    assert(s@.take(0) =~= Seq::<char>::empty());
    while k < s.len()
        invariant
            k <= s@.len(),
            off == byte_len(s@.take(k as int)),
            off <= limit,
            limit <= isize::MAX,
        decreases s@.len() - k,
    {
        proof {
            lemma_byte_len_take_step(s@, k as int);
        }
        off = off + char_width(s[k]);
        k += 1;
        if off > limit {
            proof {
                lemma_byte_len_take_le(s@, k as int);
            }
            return false;
        }
    }
    assert(s@.take(k as int) =~= s@);
    true
}

} // verus!
