//! Strings as sequences of characters: the few operations on them that the
//! line format needs.
use vstd::prelude::*;
use vstd::std_specs::iter::IteratorSpec;

verus! {

/// `String::push` of std appends one character.
pub assume_specification[ String::push ](s: &mut String, c: char)
    ensures
        final(s)@ == old(s)@.push(c),
;

/// The characters with the Unicode property `White_Space`.
pub open spec fn is_white_space(c: char) -> bool {
    ||| '\u{9}' <= c <= '\u{d}'
    ||| c == ' '
    ||| c == '\u{85}'
    ||| c == '\u{a0}'
    ||| c == '\u{1680}'
    ||| '\u{2000}' <= c <= '\u{200a}'
    ||| c == '\u{2028}'
    ||| c == '\u{2029}'
    ||| c == '\u{202f}'
    ||| c == '\u{205f}'
    ||| c == '\u{3000}'
}

/// `char::is_whitespace` of std tells whether a character has the property `White_Space`.
pub assume_specification[ char::is_whitespace ](c: char) -> (r: bool)
    ensures
        r == is_white_space(c),
;

/// A text in small letters, as std gives it.
pub uninterp spec fn lowercase(s: Seq<char>) -> Seq<char>;

/// `str::to_lowercase` of std: the text in small letters. The contract
/// names the result.
pub assume_specification[ str::to_lowercase ](s: &str) -> (r: String)
    ensures
        r@ == lowercase(s@),
;

/// How many characters of white space a text begins with.
pub open spec fn leading_blanks(s: Seq<char>) -> nat
    decreases s.len(),
{
    if s.len() > 0 && is_white_space(s[0]) {
        1 + leading_blanks(s.drop_first())
    } else {
        0
    }
}

/// How many characters of white space a text ends with.
pub open spec fn trailing_blanks(s: Seq<char>) -> nat
    decreases s.len(),
{
    if s.len() > 0 && is_white_space(s.last()) {
        1 + trailing_blanks(s.drop_last())
    } else {
        0
    }
}

/// A text without the white space at its two ends.
pub open spec fn trimmed(s: Seq<char>) -> Seq<char> {
    let t = s.skip(leading_blanks(s) as int);
    t.take(t.len() - trailing_blanks(t))
}

/// The first place at or after `from` where `pattern` stands in `s`.
pub open spec fn find_from(s: Seq<char>, pattern: Seq<char>, from: int) -> Option<int>
    decreases s.len() - from,
{
    if from < 0 || from + pattern.len() > s.len() {
        None
    } else if s.subrange(from, from + pattern.len()) == pattern {
        Some(from)
    } else if from < s.len() {
        find_from(s, pattern, from + 1)
    } else {
        None
    }
}

/// A text whose first `k` characters are white space, and the next one is
/// not, begins with `k` characters of white space.
pub proof fn lemma_leading_blanks(s: Seq<char>, k: int)
    requires
        0 <= k <= s.len(),
        forall|i: int| 0 <= i < k ==> is_white_space(#[trigger] s[i]),
        k < s.len() ==> !is_white_space(s[k]),
    ensures
        leading_blanks(s) == k,
    decreases k,
{
    if k > 0 {
        let t = s.drop_first();
        assert forall|i: int| 0 <= i < k - 1 implies is_white_space(#[trigger] t[i]) by {
            assert(t[i] == s[i + 1]);
        }
        lemma_leading_blanks(t, k - 1);
    }
}

/// A text whose last `k` characters are white space, and the one before
/// them is not, ends with `k` characters of white space.
pub proof fn lemma_trailing_blanks(s: Seq<char>, k: int)
    requires
        0 <= k <= s.len(),
        forall|i: int| s.len() - k <= i < s.len() ==> is_white_space(#[trigger] s[i]),
        k < s.len() ==> !is_white_space(s[s.len() - k - 1]),
    ensures
        trailing_blanks(s) == k,
    decreases k,
{
    if k > 0 {
        let t = s.drop_last();
        assert forall|i: int| t.len() - (k - 1) <= i < t.len() implies is_white_space(
            #[trigger] t[i],
        ) by {
            assert(t[i] == s[i]);
        }
        lemma_trailing_blanks(t, k - 1);
    }
}

/// The characters of a string, in order.
pub fn chars_of(s: &str) -> (v: Vec<char>)
    ensures
        v@ == s@,
{
    let mut v: Vec<char> = Vec::new();
    let mut rest = s.chars();
    loop
        invariant
            rest.obeys_prophetic_iter_laws(),
            rest.decrease() is Some,
            v@ + rest.remaining() == s@,
        ensures
            v@ == s@,
        decreases rest.decrease()->0,
    {
        match rest.next() {
            Some(c) => {
                v.push(c);
            },
            None => {
                assert(v@ =~= v@ + rest.remaining());
                break ;
            },
        }
    }
    v
}

/// The string made of the characters `v[from..to]`.
pub fn text_of(v: &Vec<char>, from: usize, to: usize) -> (s: String)
    requires
        from <= to <= v.len(),
    ensures
        s@ == v@.subrange(from as int, to as int),
{
    let mut s = String::new();
    let mut i: usize = from;
    while i < to
        invariant
            from <= i <= to <= v.len(),
            s@ == v@.subrange(from as int, i as int),
        decreases to - i,
    {
        s.push(v[i]);
        i += 1;
        assert(s@ =~= v@.subrange(from as int, i as int));
    }
    s
}

/// The bounds of what is left of `v[from..to]` without the white space at its two ends.
pub fn trim_bounds(v: &Vec<char>, from: usize, to: usize) -> (r: (usize, usize))
    requires
        from <= to <= v.len(),
    ensures
        from <= r.0 <= r.1 <= to,
        v@.subrange(r.0 as int, r.1 as int) == trimmed(v@.subrange(from as int, to as int)),
{
    let ghost s = v@.subrange(from as int, to as int);
    let mut start: usize = from;
    while start < to && v[start].is_whitespace()
        invariant
            from <= start <= to <= v.len(),
            forall|i: int| from <= i < start ==> is_white_space(#[trigger] v@[i]),
        decreases to - start,
    {
        start += 1;
    }
    let mut end: usize = to;
    while end > start && v[end - 1].is_whitespace()
        invariant
            start <= end <= to <= v.len(),
            forall|i: int| end <= i < to ==> is_white_space(#[trigger] v@[i]),
        decreases end - start,
    {
        end -= 1;
    }
    proof {
        assert forall|i: int| 0 <= i < start - from implies is_white_space(#[trigger] s[i]) by {
            assert(s[i] == v@[from + i]);
        }
        lemma_leading_blanks(s, start - from);
        let t = s.skip(start - from);
        assert(t =~= v@.subrange(start as int, to as int));
        assert forall|i: int| t.len() - (to - end) <= i < t.len() implies is_white_space(
            #[trigger] t[i],
        ) by {
            assert(t[i] == v@[start + i]);
        }
        lemma_trailing_blanks(t, to - end);
        assert(t.take(t.len() - (to - end)) =~= v@.subrange(start as int, end as int));
    }
    (start, end)
}

/// The first place at or after `from` where `pattern` stands in `v`.
pub fn find(v: &Vec<char>, pattern: &Vec<char>, from: usize) -> (r: Option<usize>)
    requires
        from <= v.len(),
    ensures
        match r {
            Some(i) => from <= i && i + pattern.len() <= v.len() && find_from(
                v@,
                pattern@,
                from as int,
            ) == Some(i as int),
            None => find_from(v@, pattern@, from as int) is None,
        },
{
    let n = pattern.len();
    let mut i: usize = from;
    while n <= v.len() && i <= v.len() - n
        invariant
            from <= i <= v.len(),
            n == pattern.len(),
            find_from(v@, pattern@, from as int) == find_from(v@, pattern@, i as int),
        decreases v.len() - i,
    {
        let mut k: usize = 0;
        while k < n && v[i + k] == pattern[k]
            invariant
                k <= n,
                n == pattern.len(),
                i + n <= v.len(),
                forall|j: int| 0 <= j < k ==> v@[i + j] == pattern@[j],
            decreases n - k,
        {
            k += 1;
        }
        if k == n {
            assert(v@.subrange(i as int, i + n) =~= pattern@);
            return Some(i);
        }
        assert(v@.subrange(i as int, i + n)[k as int] == v@[i + k]);
        i += 1;
    }
    None
}

/// A text without the white space at its two ends.
pub fn trim(s: &str) -> (r: String)
    ensures
        r@ == trimmed(s@),
{
    let v = chars_of(s);
    assert(v@.subrange(0, v.len() as int) =~= v@);
    let (from, to) = trim_bounds(&v, 0, v.len());
    text_of(&v, from, to)
}

/// Whether a text has no white space at either end.
pub open spec fn is_trimmed(s: Seq<char>) -> bool {
    s.len() > 0 ==> !is_white_space(s[0]) && !is_white_space(s.last())
}

/// Of the characters of white space that a text begins with, each is white
/// space, and the character behind them is not.
pub proof fn lemma_leading_blanks_are_blank(s: Seq<char>)
    ensures
        leading_blanks(s) <= s.len(),
        forall|i: int| 0 <= i < leading_blanks(s) ==> is_white_space(#[trigger] s[i]),
        leading_blanks(s) < s.len() ==> !is_white_space(s[leading_blanks(s) as int]),
    decreases s.len(),
{
    if s.len() > 0 && is_white_space(s[0]) {
        let t = s.drop_first();
        lemma_leading_blanks_are_blank(t);
        assert forall|i: int| 0 <= i < leading_blanks(s) implies is_white_space(
            #[trigger] s[i],
        ) by {
            if i > 0 {
                assert(s[i] == t[i - 1]);
            }
        }
        if leading_blanks(s) < s.len() {
            assert(s[leading_blanks(s) as int] == t[leading_blanks(t) as int]);
        }
    }
}

/// Of the characters of white space that a text ends with, each is white
/// space, and the character before them is not.
pub proof fn lemma_trailing_blanks_are_blank(s: Seq<char>)
    ensures
        trailing_blanks(s) <= s.len(),
        forall|i: int|
            s.len() - trailing_blanks(s) <= i < s.len() ==> is_white_space(#[trigger] s[i]),
        trailing_blanks(s) < s.len() ==> !is_white_space(s[s.len() - trailing_blanks(s) - 1]),
    decreases s.len(),
{
    if s.len() > 0 && is_white_space(s.last()) {
        let t = s.drop_last();
        lemma_trailing_blanks_are_blank(t);
        assert forall|i: int| s.len() - trailing_blanks(s) <= i < s.len() implies is_white_space(
            #[trigger] s[i],
        ) by {
            if i < t.len() {
                assert(s[i] == t[i]);
            }
        }
        if trailing_blanks(s) < s.len() {
            assert(s[s.len() - trailing_blanks(s) - 1] == t[t.len() - trailing_blanks(t) - 1]);
        }
    }
}

/// A trimmed text has no white space at either end, so that trimming it
/// again changes nothing.
pub proof fn lemma_trimmed_is_trimmed(s: Seq<char>)
    ensures
        is_trimmed(trimmed(s)),
        trimmed(trimmed(s)) == trimmed(s),
{
    lemma_leading_blanks_are_blank(s);
    let t = s.skip(leading_blanks(s) as int);
    lemma_trailing_blanks_are_blank(t);
    let u = trimmed(s);
    if u.len() > 0 {
        assert(u[0] == s[leading_blanks(s) as int]);
        assert(u.last() == t[t.len() - trailing_blanks(t) - 1]);
    }
    lemma_trimmed_padded(Seq::empty(), u, Seq::empty());
    assert(Seq::<char>::empty() + u + Seq::<char>::empty() =~= u);
}

/// Trimming takes the white space around a text away, and nothing of the
/// text where the text itself neither begins nor ends with white space.
pub proof fn lemma_trimmed_padded(before: Seq<char>, s: Seq<char>, after: Seq<char>)
    requires
        forall|i: int| 0 <= i < before.len() ==> is_white_space(#[trigger] before[i]),
        forall|i: int| 0 <= i < after.len() ==> is_white_space(#[trigger] after[i]),
        is_trimmed(s),
    ensures
        trimmed(before + s + after) == s,
{
    let whole = before + s + after;
    if s.len() == 0 {
        assert forall|i: int| 0 <= i < whole.len() implies is_white_space(#[trigger] whole[i]) by {
            if i < before.len() {
                assert(whole[i] == before[i]);
            } else {
                assert(whole[i] == after[i - before.len()]);
            }
        }
        lemma_leading_blanks(whole, whole.len() as int);
        let t = whole.skip(whole.len() as int);
        assert(t =~= Seq::<char>::empty());
        assert(t.take(t.len() - trailing_blanks(t)) =~= s);
    } else {
        assert forall|i: int| 0 <= i < before.len() implies is_white_space(#[trigger] whole[i]) by {
            assert(whole[i] == before[i]);
        }
        assert(whole[before.len() as int] == s[0]);
        lemma_leading_blanks(whole, before.len() as int);
        let t = whole.skip(before.len() as int);
        assert(t =~= s + after);
        assert forall|i: int| t.len() - after.len() <= i < t.len() implies is_white_space(
            #[trigger] t[i],
        ) by {
            assert(t[i] == after[i - s.len()]);
        }
        assert(t[t.len() - after.len() - 1] == s.last());
        lemma_trailing_blanks(t, after.len() as int);
        assert(t.take(t.len() - after.len()) =~= s);
    }
}

/// Where a pattern stands nowhere from `from` on, it is not found.
pub proof fn lemma_find_none(s: Seq<char>, pattern: Seq<char>, from: int)
    requires
        0 <= from,
        forall|i: int|
            from <= i && i + pattern.len() <= s.len() ==> #[trigger] s.subrange(
                i,
                i + pattern.len(),
            ) != pattern,
    ensures
        find_from(s, pattern, from) is None,
    decreases s.len() - from,
{
    if from + pattern.len() <= s.len() && from < s.len() {
        lemma_find_none(s, pattern, from + 1);
    }
}

/// Where a pattern stands at `at` and nowhere between `from` and `at`, it is found at `at`.
pub proof fn lemma_find_first(s: Seq<char>, pattern: Seq<char>, from: int, at: int)
    requires
        0 <= from <= at,
        at + pattern.len() <= s.len(),
        s.subrange(at, at + pattern.len()) == pattern,
        forall|i: int| from <= i < at ==> #[trigger] s.subrange(i, i + pattern.len()) != pattern,
    ensures
        find_from(s, pattern, from) == Some(at),
    decreases at - from,
{
    if from < at {
        lemma_find_first(s, pattern, from + 1, at);
    }
}

/// Whether a text comes before another in the order of a dictionary that
/// goes by the numbers of the characters: at the first place where the two
/// differ the text has the smaller character, or it ends there.
pub open spec fn precedes(a: Seq<char>, b: Seq<char>) -> bool
    decreases a.len(),
{
    if a.len() == 0 {
        b.len() > 0
    } else if b.len() == 0 {
        false
    } else if a[0] != b[0] {
        a[0] < b[0]
    } else {
        precedes(a.drop_first(), b.drop_first())
    }
}

/// Of two texts that differ one comes before the other, and never both.
pub proof fn lemma_precedes_total(a: Seq<char>, b: Seq<char>)
    ensures
        a == b || precedes(a, b) || precedes(b, a),
        !(precedes(a, b) && precedes(b, a)),
        !precedes(a, a),
    decreases a.len(),
{
    if a.len() > 0 {
        lemma_precedes_total(a.drop_first(), a.drop_first());
    }
    if a.len() == 0 || b.len() == 0 {
        if a.len() == 0 && b.len() == 0 {
            assert(a =~= b);
        }
    } else if a[0] == b[0] {
        lemma_precedes_total(a.drop_first(), b.drop_first());
        if a.drop_first() == b.drop_first() {
            assert(a =~= seq![a[0]] + a.drop_first());
            assert(b =~= seq![b[0]] + b.drop_first());
        }
    }
}

/// What comes before a text comes before all that the text comes before.
pub proof fn lemma_precedes_transitive(a: Seq<char>, b: Seq<char>, c: Seq<char>)
    requires
        precedes(a, b),
        precedes(b, c),
    ensures
        precedes(a, c),
    decreases a.len(),
{
    if a.len() > 0 && b.len() > 0 && c.len() > 0 {
        if a[0] == b[0] && b[0] == c[0] {
            lemma_precedes_transitive(a.drop_first(), b.drop_first(), c.drop_first());
        }
    }
}

/// Whether a text comes before another in the order of the dictionary.
pub fn text_precedes(a: &str, b: &str) -> (r: bool)
    ensures
        r == precedes(a@, b@),
{
    let x = chars_of(a);
    let y = chars_of(b);
    let mut i: usize = 0;
    assert(x@.skip(0) =~= x@);
    assert(y@.skip(0) =~= y@);
    while i < x.len() && i < y.len()
        invariant
            i <= x.len(),
            i <= y.len(),
            x@ == a@,
            y@ == b@,
            precedes(x@, y@) == precedes(x@.skip(i as int), y@.skip(i as int)),
        decreases x.len() - i,
    {
        proof {
            assert(x@.skip(i as int).drop_first() =~= x@.skip(i + 1));
            assert(y@.skip(i as int).drop_first() =~= y@.skip(i + 1));
            assert(x@.skip(i as int)[0] == x@[i as int]);
            assert(y@.skip(i as int)[0] == y@[i as int]);
        }
        if x[i] != y[i] {
            return x[i] < y[i];
        }
        i += 1;
    }
    i >= x.len() && i < y.len()
}

} // verus!
