//! Character-sequence utilities: copying between `str`/`String` and `Vec<char>`,
//! pattern replacement, search, trimming and lexicographic order.

use vstd::prelude::*;

verus! {

/// Appends one character to a `String` (`String::push`).
#[verifier::external_body]
fn push_char(s: &mut String, c: char)
    ensures
        final(s)@ == old(s)@.push(c),
{
    s.push(c);
}

/// The characters of `s`, in order.
pub fn chars_of(s: &str) -> (v: Vec<char>)
    ensures
        v@ == s@,
{
    let mut v: Vec<char> = Vec::new();
    for c in it: s.chars()
        invariant
            v@ == it.seq().take(it.index() as int),
            it.seq() == s@,
    {
        v.push(c);
    }
    assert(v@ =~= s@);
    v
}

/// A `String` holding exactly the characters of `v`.
pub fn string_of(v: &Vec<char>) -> (s: String)
    ensures
        s@ == v@,
{
    let mut s = String::new();
    let mut i: usize = 0;
    while i < v.len()
        invariant
            i <= v.len(),
            s@ == v@.take(i as int),
        decreases v.len() - i,
    {
        push_char(&mut s, v[i]);
        assert(v@.take(i + 1) =~= v@.take(i as int).push(v@[i as int]));
        i = i + 1;
    }
    assert(v@.take(v.len() as int) =~= v@);
    s
}


/// `pat` occurs in `s` starting at position `i`.
pub open spec fn occurs_at(s: Seq<char>, pat: Seq<char>, i: int) -> bool {
    0 <= i && i + pat.len() <= s.len() && s.subrange(i, i + pat.len()) == pat
}

/// Whether `pat` occurs in `s` at position `i` (no allocation, char by char).
pub fn matches_at(s: &Vec<char>, i: usize, pat: &Vec<char>) -> (b: bool)
    ensures
        b == occurs_at(s@, pat@, i as int),
{
    if i > s.len() || pat.len() > s.len() - i {
        return false;
    }
    let mut k: usize = 0;
    while k < pat.len()
        invariant
            i + pat.len() <= s.len(),
            k <= pat.len(),
            forall|j: int| 0 <= j < k ==> s@[i + j] == pat@[j],
        decreases pat.len() - k,
    {
        if s[i + k] != pat[k] {
            assert(s@.subrange(i as int, i + pat.len())[k as int] != pat@[k as int]);
            return false;
        }
        k = k + 1;
    }
    assert(s@.subrange(i as int, i + pat.len()) =~= pat@);
    true
}

/// Every occurrence of `pat` in `s`, taken from the left without overlap, replaced by `rep`
/// (the behaviour of `str::replace` for a non-empty pattern).
pub open spec fn replace_all(s: Seq<char>, pat: Seq<char>, rep: Seq<char>) -> Seq<char>
    decreases s.len(),
{
    if s.len() == 0 {
        s
    } else if pat.len() > 0 && occurs_at(s, pat, 0) {
        rep + replace_all(s.skip(pat.len() as int), pat, rep)
    } else {
        seq![s[0]] + replace_all(s.skip(1), pat, rep)
    }
}

/// `s` with every left-to-right, non-overlapping occurrence of `pat` replaced by `rep`.
pub fn replace_chars(s: &Vec<char>, pat: &Vec<char>, rep: &Vec<char>) -> (out: Vec<char>)
    requires
        pat.len() > 0,
    ensures
        out@ == replace_all(s@, pat@, rep@),
{
    let mut out: Vec<char> = Vec::new();
    let mut i: usize = 0;
    assert(out@ + replace_all(s@.skip(0), pat@, rep@) =~= replace_all(s@, pat@, rep@)) by {
        assert(s@.skip(0) =~= s@);
    }
    while i < s.len()
        invariant
            i <= s.len(),
            pat.len() > 0,
            out@ + replace_all(s@.skip(i as int), pat@, rep@) == replace_all(s@, pat@, rep@),
        decreases s.len() - i,
    {
        let ghost rest = s@.skip(i as int);
        let hit = matches_at(s, i, pat);
        assert(occurs_at(rest, pat@, 0) == occurs_at(s@, pat@, i as int)) by {
            if i + pat.len() <= s.len() {
                assert(rest.subrange(0, pat@.len() as int) =~= s@.subrange(i as int, i + pat.len()));
            }
        }
        if hit {
            let mut k: usize = 0;
            let ghost before = out@;
            while k < rep.len()
                invariant
                    k <= rep.len(),
                    out@ == before + rep@.take(k as int),
                decreases rep.len() - k,
            {
                out.push(rep[k]);
                assert(rep@.take(k + 1) =~= rep@.take(k as int).push(rep@[k as int]));
                k = k + 1;
            }
            assert(rep@.take(rep.len() as int) =~= rep@);
            assert(rest.skip(pat@.len() as int) =~= s@.skip(i + pat.len()));
            assert(before + (rep@ + replace_all(s@.skip(i + pat.len()), pat@, rep@))
                =~= out@ + replace_all(s@.skip(i + pat.len()), pat@, rep@));
            i = i + pat.len();
        } else {
            let ghost before = out@;
            out.push(s[i]);
            assert(rest.skip(1) =~= s@.skip(i + 1));
            assert(before + (seq![rest[0]] + replace_all(s@.skip(i + 1), pat@, rep@))
                =~= out@ + replace_all(s@.skip(i + 1), pat@, rep@));
            i = i + 1;
        }
    }
    assert(replace_all(s@.skip(i as int), pat@, rep@) =~= Seq::<char>::empty());
    assert(out@ + Seq::<char>::empty() =~= out@);
    out
}

/// The leftmost position at or after `from` where `pat` occurs in `s`.
pub open spec fn find_from(s: Seq<char>, pat: Seq<char>, from: int) -> Option<int>
    decreases s.len() + 1 - from,
{
    if from < 0 || from + pat.len() > s.len() {
        None
    } else if occurs_at(s, pat, from) {
        Some(from)
    } else {
        find_from(s, pat, from + 1)
    }
}

/// The leftmost position where `pat` occurs in `s` (what `str::find` locates).
pub open spec fn find_first(s: Seq<char>, pat: Seq<char>) -> Option<int> {
    find_from(s, pat, 0)
}

/// The leftmost occurrence of `pat` in `s`, as a character position.
pub fn find_chars(s: &Vec<char>, pat: &Vec<char>) -> (r: Option<usize>)
    ensures
        r matches Some(i) ==> find_first(s@, pat@) == Some(i as int),
        r is None ==> find_first(s@, pat@) is None,
{
    let mut i: usize = 0;
    while i <= s.len() && pat.len() <= s.len() - i
        invariant
            i <= s.len() + 1,
            find_from(s@, pat@, i as int) == find_first(s@, pat@),
        decreases s.len() + 1 - i,
    {
        if matches_at(s, i, pat) {
            return Some(i);
        }
        assert(i < s.len()) by {
            if i == s.len() {
                assert(s@.subrange(i as int, i as int) =~= pat@);
            }
        }
        i = i + 1;
    }
    None
}

/// A position that `find_from` reports holds an occurrence of the pattern.
pub proof fn lemma_find_from_occurs(s: Seq<char>, pat: Seq<char>, from: int)
    ensures
        find_from(s, pat, from) matches Some(i) ==> occurs_at(s, pat, i) && from <= i,
    decreases s.len() + 1 - from,
{
    if from < 0 || from + pat.len() > s.len() {
    } else if occurs_at(s, pat, from) {
    } else {
        lemma_find_from_occurs(s, pat, from + 1);
    }
}

/// `s` ends with `suffix`.
pub open spec fn has_suffix(s: Seq<char>, suffix: Seq<char>) -> bool {
    suffix.len() <= s.len() && s.skip(s.len() - suffix.len()) == suffix
}

/// `s` starts with `prefix`.
pub open spec fn has_prefix(s: Seq<char>, prefix: Seq<char>) -> bool {
    prefix.len() <= s.len() && s.take(prefix.len() as int) == prefix
}

/// Whether `s` ends with `suffix`.
pub fn ends_with_chars(s: &Vec<char>, suffix: &Vec<char>) -> (b: bool)
    ensures
        b == has_suffix(s@, suffix@),
{
    if suffix.len() > s.len() {
        return false;
    }
    let start = s.len() - suffix.len();
    let b = matches_at(s, start, suffix);
    assert(s@.subrange(start as int, start + suffix.len()) =~= s@.skip(start as int));
    b
}

/// Whether `s` starts with `prefix`.
pub fn starts_with_chars(s: &Vec<char>, prefix: &Vec<char>) -> (b: bool)
    ensures
        b == has_prefix(s@, prefix@),
{
    let b = matches_at(s, 0, prefix);
    if prefix.len() <= s.len() {
        assert(s@.subrange(0, prefix.len() as int) =~= s@.take(prefix.len() as int));
    }
    b
}

/// `s` with every leading repetition of `prefix` removed (`str::trim_start_matches`
/// with a non-empty string pattern).
pub open spec fn strip_all_prefix(s: Seq<char>, prefix: Seq<char>) -> Seq<char>
    decreases s.len(),
{
    if prefix.len() > 0 && has_prefix(s, prefix) {
        strip_all_prefix(s.skip(prefix.len() as int), prefix)
    } else {
        s
    }
}

/// `s` without any leading repetitions of `prefix`.
pub fn strip_all_prefix_chars(s: &Vec<char>, prefix: &Vec<char>) -> (out: Vec<char>)
    requires
        prefix.len() > 0,
    ensures
        out@ == strip_all_prefix(s@, prefix@),
{
    let mut i: usize = 0;
    assert(s@.skip(0) =~= s@);
    while i <= s.len() && matches_at(s, i, prefix)
        invariant
            i <= s.len(),
            prefix.len() > 0,
            strip_all_prefix(s@.skip(i as int), prefix@) == strip_all_prefix(s@, prefix@),
        decreases s.len() - i,
    {
        assert(s@.skip(i as int).take(prefix.len() as int) =~= s@.subrange(i as int, i + prefix.len()));
        assert(s@.skip(i as int).skip(prefix.len() as int) =~= s@.skip(i + prefix.len()));
        i = i + prefix.len();
    }
    let ghost rest = s@.skip(i as int);
    assert(!has_prefix(rest, prefix@)) by {
        if has_prefix(rest, prefix@) {
            assert(rest.take(prefix.len() as int) =~= s@.subrange(i as int, i + prefix.len()));
        }
    }
    copy_from(s, i)
}

/// The characters of `s` from position `start` on.
pub fn copy_from(s: &Vec<char>, start: usize) -> (out: Vec<char>)
    requires
        start <= s.len(),
    ensures
        out@ == s@.skip(start as int),
{
    copy_range(s, start, s.len())
}

/// The characters of `s` in positions `start .. end`.
pub fn copy_range(s: &Vec<char>, start: usize, end: usize) -> (out: Vec<char>)
    requires
        start <= end <= s.len(),
    ensures
        out@ == s@.subrange(start as int, end as int),
{
    let mut out: Vec<char> = Vec::new();
    let mut i: usize = start;
    while i < end
        invariant
            start <= i <= end,
            end <= s.len(),
            out@ == s@.subrange(start as int, i as int),
        decreases end - i,
    {
        out.push(s[i]);
        assert(s@.subrange(start as int, i + 1) =~= s@.subrange(start as int, i as int).push(s@[i as int]));
        i = i + 1;
    }
    out
}


/// The Unicode `White_Space` property, as listed in the Unicode Character Database.
pub open spec fn is_white_space(c: char) -> bool {
    let n = c as u32;
    ||| 0x9 <= n <= 0xD
    ||| n == 0x20
    ||| n == 0x85
    ||| n == 0xA0
    ||| n == 0x1680
    ||| 0x2000 <= n <= 0x200A
    ||| n == 0x2028
    ||| n == 0x2029
    ||| n == 0x202F
    ||| n == 0x205F
    ||| n == 0x3000
}

/// Whether `c` has the Unicode `White_Space` property (what `char::is_whitespace`
/// reports).
pub fn char_is_whitespace(c: char) -> (b: bool)
    ensures
        b == is_white_space(c),
{
    let n: u32 = c as u32;
    (0x9 <= n && n <= 0xD) || n == 0x20 || n == 0x85 || n == 0xA0 || n == 0x1680 || (0x2000
        <= n && n <= 0x200A) || n == 0x2028 || n == 0x2029 || n == 0x202F || n == 0x205F || n
        == 0x3000
}

/// How many white-space characters `s` starts with.
pub open spec fn leading_ws(s: Seq<char>) -> nat
    decreases s.len(),
{
    if s.len() > 0 && is_white_space(s[0]) {
        1 + leading_ws(s.drop_first())
    } else {
        0
    }
}

/// How many white-space characters `s` ends with.
pub open spec fn trailing_ws(s: Seq<char>) -> nat
    decreases s.len(),
{
    if s.len() > 0 && is_white_space(s.last()) {
        1 + trailing_ws(s.drop_last())
    } else {
        0
    }
}

/// `s` without leading and trailing white space (`str::trim`).
pub open spec fn trim_ws(s: Seq<char>) -> Seq<char> {
    let t = s.skip(leading_ws(s) as int);
    t.take(t.len() - trailing_ws(t))
}

/// A run of white space is never longer than the text it is in.
pub proof fn lemma_ws_bounds(s: Seq<char>)
    ensures
        leading_ws(s) <= s.len(),
        trailing_ws(s) <= s.len(),
    decreases s.len(),
{
    if s.len() > 0 {
        lemma_ws_bounds(s.drop_first());
        lemma_ws_bounds(s.drop_last());
    }
}

/// `s` without leading and trailing white space.
pub fn trim_chars(s: &Vec<char>) -> (out: Vec<char>)
    ensures
        out@ == trim_ws(s@),
{
    let mut a: usize = 0;
    assert(s@.skip(0) =~= s@);
    while a < s.len() && char_is_whitespace(s[a])
        invariant
            a <= s.len(),
            leading_ws(s@.skip(a as int)) + a == leading_ws(s@),
        decreases s.len() - a,
    {
        assert(s@.skip(a as int).drop_first() =~= s@.skip(a + 1));
        a = a + 1;
    }
    let t = copy_from(s, a);
    assert(t@ == s@.skip(leading_ws(s@) as int));
    let mut b: usize = t.len();
    assert(t@.take(t.len() as int) =~= t@);
    while b > 0 && char_is_whitespace(t[b - 1])
        invariant
            b <= t.len(),
            trailing_ws(t@.take(b as int)) + (t.len() - b) == trailing_ws(t@),
        decreases b,
    {
        assert(t@.take(b as int).drop_last() =~= t@.take(b - 1));
        b = b - 1;
    }
    proof {
        lemma_ws_bounds(t@);
    }
    copy_range(&t, 0, b)
}

/// `a` comes strictly before `b` in lexicographic order of code points.  This is the
/// order of Rust's `str`/`String` comparison: UTF-8 keeps code-point order, so comparing
/// the encoded bytes and comparing the characters agree.
pub open spec fn text_less(a: Seq<char>, b: Seq<char>) -> bool
    decreases a.len(),
{
    if a.len() == 0 {
        b.len() > 0
    } else if b.len() == 0 {
        false
    } else if (a[0] as int) < (b[0] as int) {
        true
    } else if a[0] == b[0] {
        text_less(a.drop_first(), b.drop_first())
    } else {
        false
    }
}

/// Whether `a` sorts strictly after `b` (what `a > b` computes on strings).
pub fn text_greater(a: &Vec<char>, b: &Vec<char>) -> (r: bool)
    ensures
        r == text_less(b@, a@),
{
    let mut i: usize = 0;
    assert(a@.skip(0) =~= a@ && b@.skip(0) =~= b@);
    while i < a.len() && i < b.len() && a[i] == b[i]
        invariant
            i <= a.len(),
            i <= b.len(),
            text_less(b@.skip(i as int), a@.skip(i as int)) == text_less(b@, a@),
        decreases a.len() - i,
    {
        assert(a@.skip(i as int).drop_first() =~= a@.skip(i + 1));
        assert(b@.skip(i as int).drop_first() =~= b@.skip(i + 1));
        i = i + 1;
    }
    if i == a.len() {
        false
    } else if i == b.len() {
        true
    } else {
        assert(a@.skip(i as int)[0] == a@[i as int] && b@.skip(i as int)[0] == b@[i as int]);
        b[i] < a[i]
    }
}


/// No text sorts before itself.
pub proof fn lemma_text_less_irreflexive(a: Seq<char>)
    ensures
        !text_less(a, a),
    decreases a.len(),
{
    if a.len() > 0 {
        lemma_text_less_irreflexive(a.drop_first());
    }
}

/// Text order is transitive.
pub proof fn lemma_text_less_transitive(a: Seq<char>, b: Seq<char>, c: Seq<char>)
    requires
        text_less(a, b),
        text_less(b, c),
    ensures
        text_less(a, c),
    decreases a.len(),
{
    if a.len() > 0 && b.len() > 0 && c.len() > 0 && a[0] == b[0] && b[0] == c[0] {
        lemma_text_less_transitive(a.drop_first(), b.drop_first(), c.drop_first());
    }
}

/// Two different texts are ordered one way or the other.
pub proof fn lemma_text_less_total(a: Seq<char>, b: Seq<char>)
    ensures
        a == b || text_less(a, b) || text_less(b, a),
    decreases a.len(),
{
    if a.len() == 0 && b.len() == 0 {
        assert(a =~= b);
    } else if a.len() > 0 && b.len() > 0 && a[0] == b[0] {
        lemma_text_less_total(a.drop_first(), b.drop_first());
        if a.drop_first() == b.drop_first() {
            assert(a.drop_first().len() == a.len() - 1);
            assert(b.drop_first().len() == b.len() - 1);
            assert(a.len() == b.len());
            assert forall|i: int| 0 <= i < a.len() implies a[i] == b[i] by {
                if i > 0 {
                    assert(a[i] == a.drop_first()[i - 1]);
                    assert(b[i] == b.drop_first()[i - 1]);
                }
            }
            assert(a =~= b);
        }
    } else if a.len() > 0 && b.len() > 0 {
        assert((a[0] as int) != (b[0] as int));
    }
}

/// Text order is asymmetric.
pub proof fn lemma_text_less_asymmetric(a: Seq<char>, b: Seq<char>)
    requires
        text_less(a, b),
    ensures
        !text_less(b, a),
{
    if text_less(b, a) {
        lemma_text_less_transitive(a, b, a);
        lemma_text_less_irreflexive(a);
    }
}

/// Texts made of two parts, the first parts of equal length, are equal exactly when both
/// parts are.
pub proof fn lemma_concat_eq(a: Seq<char>, b: Seq<char>, c: Seq<char>, d: Seq<char>)
    requires
        a.len() == c.len(),
    ensures
        (a + b == c + d) <==> (a == c && b == d),
{
    if a + b == c + d {
        assert((a + b).take(a.len() as int) =~= a);
        assert((c + d).take(c.len() as int) =~= c);
        assert((a + b).skip(a.len() as int) =~= b);
        assert((c + d).skip(c.len() as int) =~= d);
    }
}

/// Texts made of two parts, the first parts of equal length, are ordered by their first
/// parts, and by their second parts when the first parts agree.
pub proof fn lemma_concat_less(a: Seq<char>, b: Seq<char>, c: Seq<char>, d: Seq<char>)
    requires
        a.len() == c.len(),
    ensures
        text_less(a + b, c + d) == (text_less(a, c) || (a == c && text_less(b, d))),
    decreases a.len(),
{
    if a.len() == 0 {
        assert(a + b =~= b);
        assert(c + d =~= d);
        assert(a =~= c);
    } else {
        assert((a + b)[0] == a[0]);
        assert((c + d)[0] == c[0]);
        assert((a + b).drop_first() =~= a.drop_first() + b);
        assert((c + d).drop_first() =~= c.drop_first() + d);
        lemma_concat_less(a.drop_first(), b, c.drop_first(), d);
        if a[0] == c[0] {
            if a.drop_first() == c.drop_first() {
                assert(a =~= c) by {
                    assert forall|i: int| 0 <= i < a.len() implies a[i] == c[i] by {
                        if i > 0 {
                            assert(a[i] == a.drop_first()[i - 1]);
                            assert(c[i] == c.drop_first()[i - 1]);
                        }
                    }
                }
            } else {
                assert(a != c) by {
                    if a == c {
                        assert(a.drop_first() =~= c.drop_first());
                    }
                }
            }
        } else {
            assert(a != c) by {
                if a == c {
                    assert(a[0] == c[0]);
                }
            }
        }
    }
}


/// Removing the repetitions of a prefix from a text that starts with it exactly once
/// removes that one occurrence.
pub proof fn lemma_strip_all_prefix_stops(s: Seq<char>, prefix: Seq<char>)
    requires
        prefix.len() > 0,
        has_prefix(s, prefix),
        !has_prefix(s.skip(prefix.len() as int), prefix),
    ensures
        strip_all_prefix(s, prefix) == s.skip(prefix.len() as int),
{
    let rest = s.skip(prefix.len() as int);
    assert(strip_all_prefix(rest, prefix) == rest);
}

} // verus!
