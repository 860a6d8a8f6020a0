//! Text helpers: UTF-8 decoding, building strings, and splitting text into
//! lines and words.
use vstd::prelude::*;
use vstd::utf8::*;
use vstd::std_specs::iter::IteratorSpec;

verus! {

/// `String::from_utf8` of std. It gives a string exactly when the bytes are
/// valid UTF-8, and that string is made of exactly these bytes.
#[verifier::external_body]
pub(crate) fn string_from_utf8(bytes: Vec<u8>) -> (res: Option<String>)
    ensures
        res is Some <==> valid_utf8(bytes@),
        res matches Some(s) ==> encode_utf8(s@) == bytes@,
{
    String::from_utf8(bytes).ok()
}


/// `String::push` of std: appends one character.
#[verifier::external_body]
pub(crate) fn string_push(s: &mut String, c: char)
    ensures
        final(s)@ == old(s)@.push(c),
{
    s.push(c)
}

/// The characters of `s`, in order.
pub fn to_chars(s: &str) -> (v: Vec<char>)
    ensures
        v@ == s@,
{
    broadcast use vstd::string::group_string_axioms;

    let mut it = s.chars();
    let mut v: Vec<char> = Vec::new();
    loop
        invariant
            it.obeys_prophetic_iter_laws(),
            v@ + it.remaining() == s@,
            it.decrease() is Some,
        ensures
            v@ == s@,
        decreases it.decrease()->0,
    {
        let ghost before = it.remaining();
        match it.next() {
            Some(c) => {
                v.push(c);
                assert(v@ + it.remaining() == s@) by {
                    assert(before == seq![c] + before.drop_first());
                }
            },
            None => {
                assert(v@ == s@);
                break ;
            },
        }
    }
    v
}


/// A carriage return and line feed start at index `j` of `s`.
pub open spec fn crlf_at(s: Seq<char>, j: int) -> bool {
    0 <= j && j + 1 < s.len() && s[j] == '\r' && s[j + 1] == '\n'
}

/// `s` split at every "\r\n", left to right; like `str::split("\r\n")`, it
/// always has at least one part.
pub open spec fn split_lines(s: Seq<char>) -> Seq<Seq<char>>
    decreases s.len(),
{
    if s.len() == 0 {
        seq![Seq::empty()]
    } else if crlf_at(s, 0) {
        seq![Seq::<char>::empty()] + split_lines(s.skip(2))
    } else {
        let r = split_lines(s.drop_first());
        r.update(0, seq![s[0]] + r[0])
    }
}

/// `s` split at every occurrence of `c`; like `str::split(c)`, it always has
/// at least one part.
pub open spec fn split_on(s: Seq<char>, c: char) -> Seq<Seq<char>>
    decreases s.len(),
{
    if s.len() == 0 {
        seq![Seq::empty()]
    } else if s[0] == c {
        seq![Seq::<char>::empty()] + split_on(s.drop_first(), c)
    } else {
        let r = split_on(s.drop_first(), c);
        r.update(0, seq![s[0]] + r[0])
    }
}

pub proof fn lemma_split_lines_len(s: Seq<char>)
    ensures
        split_lines(s).len() >= 1,
    decreases s.len(),
{
    if s.len() > 0 {
        if crlf_at(s, 0) {
            lemma_split_lines_len(s.skip(2));
        } else {
            lemma_split_lines_len(s.drop_first());
        }
    }
}

/// The first line of `s[from..]` ends at the first "\r\n" at or after `from`.
pub proof fn lemma_split_lines_at(s: Seq<char>, from: int, p: int)
    requires
        0 <= from <= p <= s.len(),
        forall|j: int| from <= j < p ==> !crlf_at(s, j),
        p == s.len() || crlf_at(s, p),
    ensures
        p == s.len() ==> split_lines(s.subrange(from, s.len() as int)) == seq![
            s.subrange(from, s.len() as int),
        ],
        p < s.len() ==> split_lines(s.subrange(from, s.len() as int)) == seq![
            s.subrange(from, p),
        ] + split_lines(s.subrange(p + 2, s.len() as int)),
    decreases p - from,
{
    let t = s.subrange(from, s.len() as int);
    if from == p {
        if p < s.len() {
            assert(crlf_at(t, 0));
            assert(t.skip(2) =~= s.subrange(p + 2, s.len() as int));
            assert(s.subrange(from, p) =~= Seq::<char>::empty());
        } else {
            assert(t =~= Seq::<char>::empty());
        }
    } else {
        assert(!crlf_at(s, from));
        assert(!crlf_at(t, 0));
        assert(t.drop_first() =~= s.subrange(from + 1, s.len() as int));
        lemma_split_lines_at(s, from + 1, p);
        assert(seq![s[from]] + s.subrange(from + 1, p) =~= s.subrange(from, p));
        if p == s.len() {
            assert(seq![s[from]] + s.subrange(from + 1, s.len() as int) =~= t);
        }
        let r = split_lines(t.drop_first());
        if p < s.len() {
            assert(r.update(0, seq![t[0]] + r[0]) =~= seq![s.subrange(from, p)] + split_lines(
                s.subrange(p + 2, s.len() as int),
            ));
        } else {
            assert(r.update(0, seq![t[0]] + r[0]) =~= seq![t]);
        }
    }
}

/// The first part of `s[from..to]` split at `c` ends at the first `c` at or after `from`.
pub proof fn lemma_split_on_at(s: Seq<char>, c: char, from: int, p: int, to: int)
    requires
        0 <= from <= p <= to <= s.len(),
        forall|j: int| from <= j < p ==> s[j] != c,
        p == to || s[p] == c,
    ensures
        p == to ==> split_on(s.subrange(from, to), c) == seq![s.subrange(from, to)],
        p < to ==> split_on(s.subrange(from, to), c) == seq![s.subrange(from, p)] + split_on(
            s.subrange(p + 1, to),
            c,
        ),
    decreases p - from,
{
    let t = s.subrange(from, to);
    if from == p {
        if p < to {
            assert(t.drop_first() =~= s.subrange(p + 1, to));
            assert(s.subrange(from, p) =~= Seq::<char>::empty());
        } else {
            assert(t =~= Seq::<char>::empty());
        }
    } else {
        assert(t.drop_first() =~= s.subrange(from + 1, to));
        lemma_split_on_at(s, c, from + 1, p, to);
        assert(seq![s[from]] + s.subrange(from + 1, p) =~= s.subrange(from, p));
        if p == to {
            assert(seq![s[from]] + s.subrange(from + 1, to) =~= t);
        }
        let r = split_on(t.drop_first(), c);
        if p < to {
            assert(r.update(0, seq![t[0]] + r[0]) =~= seq![s.subrange(from, p)] + split_on(
                s.subrange(p + 1, to),
                c,
            ));
        } else {
            assert(r.update(0, seq![t[0]] + r[0]) =~= seq![t]);
        }
    }
}

/// The first index at or after `from` where "\r\n" starts, or the length.
pub fn find_crlf(s: &Vec<char>, from: usize) -> (p: usize)
    requires
        from <= s@.len(),
    ensures
        from <= p <= s@.len(),
        forall|j: int| from <= j < p ==> !crlf_at(s@, j),
        p == s@.len() || crlf_at(s@, p as int),
{
    let mut p = from;
    while p < s.len()
        invariant
            from <= p <= s@.len(),
            forall|j: int| from <= j < p ==> !crlf_at(s@, j),
        decreases s@.len() - p,
    {
        if p + 1 < s.len() && s[p] == '\r' && s[p + 1] == '\n' {
            return p;
        }
        p = p + 1;
    }
    p
}

/// The first index in `from..to` holding `c`, or `to`.
pub fn find_char(s: &Vec<char>, c: char, from: usize, to: usize) -> (p: usize)
    requires
        from <= to <= s@.len(),
    ensures
        from <= p <= to,
        forall|j: int| from <= j < p ==> s@[j] != c,
        p == to || s@[p as int] == c,
{
    let mut p = from;
    while p < to
        invariant
            from <= p <= to <= s@.len(),
            forall|j: int| from <= j < p ==> s@[j] != c,
        decreases to - p,
    {
        if s[p] == c {
            return p;
        }
        p = p + 1;
    }
    p
}

/// The string made of `s[from..to]`.
pub fn string_of(s: &Vec<char>, from: usize, to: usize) -> (r: String)
    requires
        from <= to <= s@.len(),
    ensures
        r@ == s@.subrange(from as int, to as int),
{
    let mut r = String::new();
    let mut i = from;
    while i < to
        invariant
            from <= i <= to <= s@.len(),
            r@ == s@.subrange(from as int, i as int),
        decreases to - i,
    {
        string_push(&mut r, s[i]);
        assert(r@ =~= s@.subrange(from as int, i + 1));
        i = i + 1;
    }
    r
}

} // verus!
