use vstd::prelude::*;
use vstd::utf8::{encode_utf8, is_char_boundary};

verus! {

/// `String::push` appends one character to the end of the string.
pub assume_specification[ String::push ](string: &mut String, ch: char)
    ensures
        final(string)@ == old(string)@.push(ch),
;

/// The characters of `s`, in order.
pub fn chars_of(s: &str) -> (v: Vec<char>)
    ensures
        v@ == s@,
{
    let n = s.unicode_len();
    let mut v: Vec<char> = Vec::new();
    let mut i: usize = 0;
    while i < n
        invariant
            n == s@.len(),
            i <= n,
            v@ == s@.subrange(0, i as int),
        decreases n - i,
    {
        v.push(s.get_char(i));
        i = i + 1;
    }
    v
}

/// UTF-8 encoding distributes over concatenation.
pub proof fn lemma_encode_utf8_concat(a: Seq<char>, b: Seq<char>)
    ensures
        encode_utf8(a + b) == encode_utf8(a) + encode_utf8(b),
    decreases a.len(),
{
    if a.len() == 0 {
        assert(a + b =~= b);
    } else {
        lemma_encode_utf8_concat(a.drop_first(), b);
        assert((a + b).drop_first() =~= a.drop_first() + b);
    }
}

/// The string whose UTF-8 bytes are those of `s` with the bytes of `ins`
/// spliced in at byte offset `idx` (`String::insert_str`).
pub fn insert_str_at(s: &str, idx: usize, ins: &str) -> (r: String)
    requires
        is_char_boundary(encode_utf8(s@), idx as int),
    ensures
        encode_utf8(r@) == encode_utf8(s@).subrange(0, idx as int) + encode_utf8(ins@)
            + encode_utf8(s@).subrange(idx as int, encode_utf8(s@).len() as int),
{
    let (a, b) = s.split_at(idx);
    let mut r = a.to_owned();
    r.append(ins);
    r.append(b);
    proof {
        lemma_encode_utf8_concat(a@, ins@);
        lemma_encode_utf8_concat(a@ + ins@, b@);
    }
    r
}

/// The string with the single character `c` inserted at byte offset `idx`
/// (`String::insert`).
pub fn insert_char_at(s: &str, idx: usize, c: char) -> (r: String)
    requires
        is_char_boundary(encode_utf8(s@), idx as int),
    ensures
        encode_utf8(r@) == encode_utf8(s@).subrange(0, idx as int) + encode_utf8(seq![c])
            + encode_utf8(s@).subrange(idx as int, encode_utf8(s@).len() as int),
{
    let (a, b) = s.split_at(idx);
    let mut r = a.to_owned();
    r.push(c);
    r.append(b);
    proof {
        assert(a@.push(c) =~= a@ + seq![c]);
        lemma_encode_utf8_concat(a@, seq![c]);
        lemma_encode_utf8_concat(a@ + seq![c], b@);
    }
    r
}

/// The string with the bytes in `start..end` removed
/// (`String::replace_range(start..end, "")`).
pub fn remove_byte_range(s: &str, start: usize, end: usize) -> (r: String)
    requires
        start <= end,
        is_char_boundary(encode_utf8(s@), start as int),
        is_char_boundary(encode_utf8(s@), end as int),
    ensures
        encode_utf8(r@) == encode_utf8(s@).subrange(0, start as int)
            + encode_utf8(s@).subrange(end as int, encode_utf8(s@).len() as int),
{
    let (a, _) = s.split_at(start);
    let (_, b) = s.split_at(end);
    let mut r = a.to_owned();
    r.append(b);
    proof {
        lemma_encode_utf8_concat(a@, b@);
    }
    r
}

/// Whether `prefix` is a prefix of `s` (`str::starts_with`).
pub fn starts_with(s: &str, prefix: &str) -> (r: bool)
    ensures
        r == prefix@.is_prefix_of(s@),
{
    let sv = chars_of(s);
    let pv = chars_of(prefix);
    if pv.len() > sv.len() {
        return false;
    }
    let mut i: usize = 0;
    while i < pv.len()
        invariant
            pv@ == prefix@,
            sv@ == s@,
            pv.len() <= sv.len(),
            i <= pv.len(),
            forall|j: int| 0 <= j < i ==> pv@[j] == sv@[j],
        decreases pv.len() - i,
    {
        if pv[i] != sv[i] {
            return false;
        }
        i = i + 1;
    }
    true
}

/// Whether two strings hold the same characters.
pub fn str_eq(a: &str, b: &str) -> (r: bool)
    ensures
        r == (a@ == b@),
{
    let av = chars_of(a);
    let bv = chars_of(b);
    if av.len() != bv.len() {
        return false;
    }
    let mut i: usize = 0;
    while i < av.len()
        invariant
            av@ == a@,
            bv@ == b@,
            av.len() == bv.len(),
            i <= av.len(),
            forall|j: int| 0 <= j < i ==> av@[j] == bv@[j],
        decreases av.len() - i,
    {
        if av[i] != bv[i] {
            return false;
        }
        i = i + 1;
    }
    proof {
        assert(av@ =~= bv@);
    }
    true
}

/// Different texts have different UTF-8 encodings.
pub proof fn lemma_encode_utf8_injective(a: Seq<char>, b: Seq<char>)
    requires
        encode_utf8(a) == encode_utf8(b),
    ensures
        a == b,
{
    vstd::utf8::encode_utf8_decode_utf8(a);
    vstd::utf8::encode_utf8_decode_utf8(b);
}


} // verus!
