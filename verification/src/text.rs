//! Character-level text helpers shared by the parsers, with their specifications.

use vstd::prelude::*;

verus! {

/// `String::push` appends one character at the end of the string (std's
/// documentation: "Appends the given char to the end of this String").
pub assume_specification[ String::push ](s: &mut String, ch: char)
    ensures
        final(s)@ == old(s)@.push(ch),
;

/// `String::pop` removes and returns the last character, or returns `None` and
/// leaves the string alone when it is empty (std's documentation).
pub assume_specification[ String::pop ](s: &mut String) -> (r: Option<char>)
    ensures
        old(s)@.len() == 0 ==> r is None && final(s)@ == old(s)@,
        old(s)@.len() > 0 ==> r == Some(old(s)@.last()) && final(s)@ == old(s)@.drop_last(),
;

/// Unicode `White_Space`, the set that `char::is_whitespace` tests.
pub open spec fn is_ws(c: char) -> bool {
    let u = c as u32;
    ||| 9 <= u <= 13
    ||| u == 32
    ||| u == 0x85
    ||| u == 0xA0
    ||| u == 0x1680
    ||| 0x2000 <= u <= 0x200A
    ||| u == 0x2028
    ||| u == 0x2029
    ||| u == 0x202F
    ||| u == 0x205F
    ||| u == 0x3000
}

/// Executable `is_ws`.
pub fn is_whitespace(c: char) -> (r: bool)
    ensures
        r == is_ws(c),
{
    let u = c as u32;
    (9 <= u && u <= 13) || u == 32 || u == 0x85 || u == 0xA0 || u == 0x1680 || (0x2000 <= u && u
        <= 0x200A) || u == 0x2028 || u == 0x2029 || u == 0x202F || u == 0x205F || u == 0x3000
}

/// `s` with leading white space removed.
pub open spec fn trim_start(s: Seq<char>) -> Seq<char>
    decreases s.len(),
{
    if s.len() > 0 && is_ws(s[0]) {
        trim_start(s.drop_first())
    } else {
        s
    }
}

/// `s` with trailing white space removed.
pub open spec fn trim_end(s: Seq<char>) -> Seq<char>
    decreases s.len(),
{
    if s.len() > 0 && is_ws(s.last()) {
        trim_end(s.drop_last())
    } else {
        s
    }
}

/// `str::trim`: white space removed at both ends.
pub open spec fn trim(s: Seq<char>) -> Seq<char> {
    trim_end(trim_start(s))
}

/// True when `s` holds nothing but white space.
pub open spec fn is_blank(s: Seq<char>) -> bool {
    forall|i: int| 0 <= i < s.len() ==> is_ws(#[trigger] s[i])
}

/// ASCII lower-casing of one character (`char::to_ascii_lowercase`).
pub open spec fn lower_char(c: char) -> char {
    if 'A' <= c <= 'Z' {
        ((c as u32) + 32) as char
    } else {
        c
    }
}

/// ASCII lower-casing of a sequence (`str::to_ascii_lowercase`).
pub open spec fn lower(s: Seq<char>) -> Seq<char> {
    Seq::new(s.len(), |i: int| lower_char(s[i]))
}

/// The pieces of `s` between occurrences of `c` (`str::split` with a char).
pub open spec fn split_char(s: Seq<char>, c: char) -> Seq<Seq<char>>
    decreases s.len(),
{
    if s.len() == 0 {
        seq![Seq::<char>::empty()]
    } else {
        let init = split_char(s.drop_last(), c);
        if s.last() == c {
            init.push(Seq::<char>::empty())
        } else {
            init.update(init.len() - 1, init.last().push(s.last()))
        }
    }
}

/// `s` without one trailing carriage return.
pub open spec fn strip_cr(s: Seq<char>) -> Seq<char> {
    if s.len() > 0 && s.last() == '\r' {
        s.drop_last()
    } else {
        s
    }
}

/// Lines ended by a newline: each piece before a `'\n'`, carriage return stripped.
pub open spec fn ended_lines(parts: Seq<Seq<char>>) -> Seq<Seq<char>> {
    Seq::new((parts.len() - 1) as nat, |i: int| strip_cr(parts[i]))
}

/// `str::lines`: lines split at `"\n"` or `"\r\n"`; the final line ending is optional.
pub open spec fn lines(s: Seq<char>) -> Seq<Seq<char>> {
    let parts = split_char(s, '\n');
    if parts.last().len() > 0 {
        ended_lines(parts).push(parts.last())
    } else {
        ended_lines(parts)
    }
}

/// True when `p` is a prefix of `s`.
pub open spec fn starts_with(s: Seq<char>, p: Seq<char>) -> bool {
    p.len() <= s.len() && s.take(p.len() as int) == p
}

/// True when `p` occurs in `s` at position `i`.
pub open spec fn occurs_at(s: Seq<char>, p: Seq<char>, i: int) -> bool {
    0 <= i && i + p.len() <= s.len() && s.subrange(i, i + p.len()) == p
}

/// The first position at or after `i` at which `p` occurs in `s`.
pub open spec fn find_from(s: Seq<char>, p: Seq<char>, i: int) -> Option<int>
    decreases s.len() + 1 - i,
{
    if i < 0 || i + p.len() > s.len() {
        None
    } else if occurs_at(s, p, i) {
        Some(i)
    } else {
        find_from(s, p, i + 1)
    }
}

/// `str::find`: the first position at which `p` occurs in `s`.
pub open spec fn find(s: Seq<char>, p: Seq<char>) -> Option<int> {
    find_from(s, p, 0)
}

/// `find` gives the first occurrence: one at `i` with none before it.
pub proof fn lemma_find_is(s: Seq<char>, p: Seq<char>, i: int)
    requires
        occurs_at(s, p, i),
        forall|j: int| 0 <= j < i ==> !occurs_at(s, p, j),
    ensures
        find(s, p) == Some(i),
{
    lemma_find_from_is(s, p, 0, i);
}

proof fn lemma_find_from_is(s: Seq<char>, p: Seq<char>, k: int, i: int)
    requires
        0 <= k <= i,
        occurs_at(s, p, i),
        forall|j: int| k <= j < i ==> !occurs_at(s, p, j),
    ensures
        find_from(s, p, k) == Some(i),
    decreases i - k,
{
    if k < i {
        lemma_find_from_is(s, p, k + 1, i);
    }
}

/// What `find` gives: `None` means no occurrence at all; `Some(i)` an
/// occurrence at `i` and none before it.
pub proof fn lemma_find_spec(s: Seq<char>, p: Seq<char>)
    ensures
        find(s, p) is None ==> forall|j: int| !occurs_at(s, p, j),
        find(s, p) matches Some(i) ==> occurs_at(s, p, i) && forall|j: int|
            0 <= j < i ==> !occurs_at(s, p, j),
{
    lemma_find_from_spec(s, p, 0);
}

proof fn lemma_find_from_spec(s: Seq<char>, p: Seq<char>, k: int)
    requires
        0 <= k,
    ensures
        find_from(s, p, k) is None ==> forall|j: int| k <= j ==> !occurs_at(s, p, j),
        find_from(s, p, k) matches Some(i) ==> k <= i && occurs_at(s, p, i) && forall|j: int|
            k <= j < i ==> !occurs_at(s, p, j),
    decreases s.len() + 1 - k,
{
    if k + p.len() <= s.len() && !occurs_at(s, p, k) {
        lemma_find_from_spec(s, p, k + 1);
    }
}

/// The first position at which `p` occurs in `s`.
pub fn find_chars(s: &Vec<char>, p: &Vec<char>) -> (r: Option<usize>)
    ensures
        match r {
            Some(i) => find(s@, p@) == Some(i as int),
            None => find(s@, p@) is None,
        },
{
    if p.len() == 0 {
        proof {
            assert(s@.subrange(0, 0) =~= p@);
        }
        return Some(0);
    }
    let mut i: usize = 0;
    while i < s.len() && p.len() <= s.len() - i
        invariant
            i <= s@.len(),
            p@.len() > 0,
            find(s@, p@) == find_from(s@, p@, i as int),
        decreases s.len() - i,
    {
        if occurs_at_exec(s, i, p) {
            proof {
                assert(s@.skip(i as int).take(p@.len() as int) =~= s@.subrange(i as int, i + p@.len()));
            }
            return Some(i);
        }
        proof {
            assert(s@.skip(i as int).take(p@.len() as int) =~= s@.subrange(i as int, i + p@.len()));
        }
        i = i + 1;
    }
    None
}

/// Append the characters of `v` to `out`.
pub fn push_all(out: &mut Vec<char>, v: &[char])
    ensures
        final(out)@ == old(out)@ + v@,
{
    let mut i: usize = 0;
    while i < v.len()
        invariant
            i <= v@.len(),
            out@ == old(out)@ + v@.take(i as int),
        decreases v.len() - i,
    {
        out.push(v[i]);
        proof {
            assert(v@.take(i + 1) =~= v@.take(i as int).push(v@[i as int]));
        }
        i = i + 1;
    }
    proof {
        assert(v@.take(v@.len() as int) =~= v@);
    }
}

/// The characters of `v` from `i` up to `j`.
pub fn slice_chars(v: &Vec<char>, i: usize, j: usize) -> (r: Vec<char>)
    requires
        i <= j <= v@.len(),
    ensures
        r@ == v@.subrange(i as int, j as int),
{
    let mut r: Vec<char> = Vec::new();
    let mut k: usize = i;
    while k < j
        invariant
            i <= k <= j <= v@.len(),
            r@ =~= v@.subrange(i as int, k as int),
        decreases j - k,
    {
        r.push(v[k]);
        k = k + 1;
    }
    r
}

/// `str::replace` for a non-empty pattern: every non-overlapping occurrence of
/// `p`, scanning left to right, becomes `w`.
pub open spec fn replace(s: Seq<char>, p: Seq<char>, w: Seq<char>) -> Seq<char>
    decreases s.len(),
{
    if p.len() == 0 || s.len() < p.len() {
        s
    } else if starts_with(s, p) {
        w + replace(s.skip(p.len() as int), p, w)
    } else {
        seq![s[0]] + replace(s.drop_first(), p, w)
    }
}

/// Every split has at least one piece.
pub proof fn lemma_split_len(s: Seq<char>, c: char)
    ensures
        split_char(s, c).len() >= 1,
    decreases s.len(),
{
    if s.len() > 0 {
        lemma_split_len(s.drop_last(), c);
    }
}

/// `trim_start` drops a prefix: what remains is empty or starts with non-space.
pub proof fn lemma_trim_start_shape(s: Seq<char>)
    ensures
        trim_start(s).len() <= s.len(),
        trim_start(s) == s.skip(s.len() - trim_start(s).len()),
        trim_start(s).len() > 0 ==> !is_ws(trim_start(s)[0]),
    decreases s.len(),
{
    if s.len() > 0 && is_ws(s[0]) {
        lemma_trim_start_shape(s.drop_first());
        assert(s.drop_first().skip(s.drop_first().len() - trim_start(s).len()) =~= s.skip(
            s.len() - trim_start(s).len(),
        ));
    } else {
        assert(s.skip(0) =~= s);
    }
}

/// `trim_end` drops a suffix: what remains is empty or ends with non-space.
pub proof fn lemma_trim_end_shape(s: Seq<char>)
    ensures
        trim_end(s).len() <= s.len(),
        trim_end(s) == s.take(trim_end(s).len() as int),
        trim_end(s).len() > 0 ==> !is_ws(trim_end(s).last()),
    decreases s.len(),
{
    if s.len() > 0 && is_ws(s.last()) {
        lemma_trim_end_shape(s.drop_last());
        assert(s.drop_last().take(trim_end(s).len() as int) =~= s.take(trim_end(s).len() as int));
    } else {
        assert(s.take(s.len() as int) =~= s);
    }
}

/// Trimming twice is trimming once.
pub proof fn lemma_trim_idempotent(s: Seq<char>)
    ensures
        trim(trim(s)) == trim(s),
{
    let x = trim_start(s);
    let y = trim_end(x);
    lemma_trim_start_shape(s);
    lemma_trim_end_shape(x);
    lemma_trim_end_shape(y);
    if y.len() > 0 {
        assert(y[0] == x[0]);
        assert(trim_start(y) == y);
    } else {
        assert(trim_start(y) == y);
    }
    assert(trim_end(y) == y);
}

/// Splitting at a separator between two texts splits each text on its own.
pub proof fn lemma_split_concat(a: Seq<char>, b: Seq<char>, c: char)
    ensures
        split_char(a + seq![c] + b, c) == split_char(a, c) + split_char(b, c),
    decreases b.len(),
{
    if b.len() == 0 {
        assert((a + seq![c] + b).drop_last() =~= a);
        assert(split_char(a, c) + split_char(b, c) =~= split_char(a, c).push(Seq::<char>::empty()));
    } else {
        let b0 = b.drop_last();
        lemma_split_concat(a, b0, c);
        lemma_split_len(b0, c);
        lemma_split_len(a, c);
        assert((a + seq![c] + b).drop_last() =~= a + seq![c] + b0);
        assert((a + seq![c] + b).last() == b.last());
        let pa = split_char(a, c);
        let pb0 = split_char(b0, c);
        if b.last() == c {
            assert(pa + pb0.push(Seq::<char>::empty()) =~= (pa + pb0).push(Seq::<char>::empty()));
        } else {
            assert(pa + pb0.update(pb0.len() - 1, pb0.last().push(b.last())) =~= (pa + pb0).update(
                (pa + pb0).len() - 1,
                (pa + pb0).last().push(b.last()),
            ));
        }
    }
}

/// A text without the separator is one piece.
pub proof fn lemma_split_none(x: Seq<char>, c: char)
    requires
        forall|i: int| 0 <= i < x.len() ==> x[i] != c,
    ensures
        split_char(x, c) == seq![x],
    decreases x.len(),
{
    if x.len() > 0 {
        lemma_split_none(x.drop_last(), c);
        assert(x.drop_last().push(x.last()) =~= x);
    } else {
        assert(x =~= Seq::<char>::empty());
    }
}

/// The last piece of a split, when not empty, ends where the text ends.
pub proof fn lemma_split_last(s: Seq<char>, c: char)
    ensures
        split_char(s, c).last().len() > 0 ==> s.len() > 0 && split_char(s, c).last().last() == s.last(),
{
    if s.len() > 0 {
        lemma_split_len(s.drop_last(), c);
    }
}

/// `v` with white space removed at both ends.
pub fn trim_chars(v: &Vec<char>) -> (r: Vec<char>)
    ensures
        r@ == trim(v@),
{
    let n = v.len();
    let mut i: usize = 0;
    proof {
        assert(v@.skip(0) =~= v@);
    }
    while i < n && is_whitespace(v[i])
        invariant
            i <= n,
            n == v@.len(),
            trim_start(v@) == trim_start(v@.skip(i as int)),
        decreases n - i,
    {
        proof {
            assert(v@.skip(i as int).drop_first() =~= v@.skip(i + 1));
        }
        i = i + 1;
    }
    let mut j: usize = n;
    proof {
        assert(v@.skip(i as int) =~= v@.subrange(i as int, j as int));
    }
    while j > i && is_whitespace(v[j - 1])
        invariant
            i <= j <= n,
            n == v@.len(),
            trim_start(v@) == v@.skip(i as int),
            trim_end(v@.skip(i as int)) == trim_end(v@.subrange(i as int, j as int)),
        decreases j - i,
    {
        proof {
            assert(v@.subrange(i as int, j as int).drop_last() =~= v@.subrange(i as int, j - 1));
        }
        j = j - 1;
    }
    let mut r: Vec<char> = Vec::new();
    let mut k: usize = i;
    while k < j
        invariant
            i <= k <= j <= n,
            n == v@.len(),
            r@ =~= v@.subrange(i as int, k as int),
        decreases j - k,
    {
        r.push(v[k]);
        k = k + 1;
    }
    r
}

/// The ASCII lower-case form of `v`.
pub fn lower_chars(v: &Vec<char>) -> (r: Vec<char>)
    ensures
        r@ == lower(v@),
{
    let mut r: Vec<char> = Vec::new();
    let mut i: usize = 0;
    while i < v.len()
        invariant
            i <= v.len(),
            r@.len() == i,
            forall|j: int| 0 <= j < i ==> r@[j] == lower_char(v@[j]),
        decreases v.len() - i,
    {
        let c = v[i];
        let l = if 'A' <= c && c <= 'Z' {
            ((c as u8) + 32) as char
        } else {
            c
        };
        r.push(l);
        i = i + 1;
    }
    proof {
        assert(r@ =~= lower(v@));
    }
    r
}

/// The pieces of `v` between occurrences of `c`.
pub fn split_chars(v: &Vec<char>, c: char) -> (r: Vec<Vec<char>>)
    ensures
        r@.len() == split_char(v@, c).len(),
        r@.len() >= 1,
        forall|j: int| 0 <= j < r@.len() ==> #[trigger] r@[j]@ == split_char(v@, c)[j],
{
    let mut pieces: Vec<Vec<char>> = Vec::new();
    let mut cur: Vec<char> = Vec::new();
    let mut i: usize = 0;
    proof {
        assert(v@.take(0) =~= Seq::<char>::empty());
    }
    while i < v.len()
        invariant
            i <= v.len(),
            split_char(v@.take(i as int), c).len() == pieces@.len() + 1,
            forall|j: int|
                0 <= j < pieces@.len() ==> #[trigger] pieces@[j]@ == split_char(
                    v@.take(i as int),
                    c,
                )[j],
            cur@ == split_char(v@.take(i as int), c).last(),
        decreases v.len() - i,
    {
        let ghost s1 = v@.take(i + 1);
        proof {
            assert(s1.drop_last() =~= v@.take(i as int));
            assert(s1.last() == v@[i as int]);
        }
        if v[i] == c {
            pieces.push(cur);
            cur = Vec::new();
        } else {
            cur.push(v[i]);
        }
        i = i + 1;
    }
    proof {
        assert(v@.take(v.len() as int) =~= v@);
    }
    pieces.push(cur);
    pieces
}

/// True when `p` occurs in `s` at position `i`.
pub fn occurs_at_exec(s: &Vec<char>, i: usize, p: &Vec<char>) -> (r: bool)
    requires
        i <= s@.len(),
    ensures
        r == starts_with(s@.skip(i as int), p@),
{
    if p.len() > s.len() - i {
        return false;
    }
    let mut k: usize = 0;
    while k < p.len()
        invariant
            k <= p@.len(),
            i + p@.len() <= s@.len(),
            s@.len() == s.len(),
            forall|j: int| 0 <= j < k ==> s@[i + j] == p@[j],
        decreases p.len() - k,
    {
        if s[i + k] != p[k] {
            proof {
                assert(s@.skip(i as int).take(p@.len() as int)[k as int] != p@[k as int]);
            }
            return false;
        }
        k = k + 1;
    }
    proof {
        assert(s@.skip(i as int).take(p@.len() as int) =~= p@);
    }
    true
}

/// Every non-overlapping occurrence of the non-empty `p` in `s`, left to right,
/// replaced by `w` (`str::replace`).
pub fn replace_chars(s: &Vec<char>, p: &Vec<char>, w: &Vec<char>) -> (r: Vec<char>)
    requires
        p@.len() > 0,
    ensures
        r@ == replace(s@, p@, w@),
{
    let mut out: Vec<char> = Vec::new();
    let mut i: usize = 0;
    proof {
        assert(s@.skip(0) =~= s@);
    }
    while i < s.len()
        invariant
            i <= s@.len(),
            p@.len() > 0,
            replace(s@, p@, w@) == out@ + replace(s@.skip(i as int), p@, w@),
        decreases s.len() - i,
    {
        let ghost rest = s@.skip(i as int);
        if occurs_at_exec(s, i, p) {
            let mut k: usize = 0;
            let ghost out0 = out@;
            while k < w.len()
                invariant
                    k <= w@.len(),
                    out@ == out0 + w@.take(k as int),
                decreases w.len() - k,
            {
                out.push(w[k]);
                proof {
                    assert(w@.take(k + 1) =~= w@.take(k as int).push(w@[k as int]));
                }
                k = k + 1;
            }
            proof {
                assert(w@.take(w@.len() as int) =~= w@);
                assert(rest.skip(p@.len() as int) =~= s@.skip(i + p@.len()));
            }
            i = i + p.len();
        } else {
            let ghost out0 = out@;
            out.push(s[i]);
            proof {
                assert(rest.drop_first() =~= s@.skip(i + 1));
                if rest.len() < p@.len() {
                    assert(rest =~= seq![rest[0]] + rest.drop_first());
                    assert(replace(rest.drop_first(), p@, w@) == rest.drop_first());
                }
            }
            i = i + 1;
        }
    }
    proof {
        assert(s@.skip(i as int) =~= Seq::<char>::empty());
        assert(out@ + Seq::<char>::empty() =~= out@);
    }
    out
}

/// The characters of `s`.
pub fn chars_of(s: &str) -> (r: Vec<char>)
    ensures
        r@ == s@,
{
    let mut r: Vec<char> = Vec::new();
    for c in it: s.chars()
        invariant
            r@ == it.seq().take(it.index() as int),
            it.seq() == s@,
    {
        proof {
            assert(it.seq().take(it.index() + 1) == it.seq().take(it.index() as int).push(c));
        }
        r.push(c);
    }
    r
}

/// A string holding the characters of `v`.
pub fn string_of(v: &[char]) -> (r: String)
    ensures
        r@ == v@,
{
    let mut r = String::new();
    let mut i: usize = 0;
    while i < v.len()
        invariant
            i <= v.len(),
            r@ == v@.take(i as int),
        decreases v.len() - i,
    {
        proof {
            assert(v@.take(i + 1) == v@.take(i as int).push(v@[i as int]));
        }
        r.push(v[i]);
        i = i + 1;
    }
    proof {
        assert(v@.take(v.len() as int) == v@);
    }
    r
}

} // verus!
