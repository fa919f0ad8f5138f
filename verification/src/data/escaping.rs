//! The escaping scheme of the line format, and the splitter that reads it.
//!
//! The fields of a line are separated by a pipe. A pipe inside a field is
//! written with a backslash before it, and so is a backslash. The splitter
//! cuts a line at the pipes that have no backslash before them and takes the
//! backslashes out as it goes.
use vstd::prelude::*;
use vstd::string::StringExecFns;
use crate::data::text::{chars_of};

verus! {

/// The character that separates the fields of a line.
pub const DELIMITER: char = '|';

/// The character that takes the meaning from the one after it.
pub const ESCAPE: char = '\\';

/// `s` with each `c` in it replaced by `with`.
pub open spec fn replaced(s: Seq<char>, c: char, with: Seq<char>) -> Seq<char>
    decreases s.len(),
{
    if s.len() == 0 {
        Seq::empty()
    } else {
        (if s[0] == c {
            with
        } else {
            seq![s[0]]
        }) + replaced(s.drop_first(), c, with)
    }
}

/// A field as a line holds it: first each backslash is doubled, then each
/// pipe gets a backslash before it.
pub open spec fn escaped(s: Seq<char>) -> Seq<char> {
    replaced(replaced(s, ESCAPE, seq![ESCAPE, ESCAPE]), DELIMITER, seq![ESCAPE, DELIMITER])
}

/// One character as a line holds it.
pub open spec fn escaped_char(c: char) -> Seq<char> {
    if c == ESCAPE || c == DELIMITER {
        seq![ESCAPE, c]
    } else {
        seq![c]
    }
}

/// A field as a line holds it, character by character.
pub open spec fn escaped_by_char(s: Seq<char>) -> Seq<char>
    decreases s.len(),
{
    if s.len() == 0 {
        Seq::empty()
    } else {
        escaped_char(s[0]) + escaped_by_char(s.drop_first())
    }
}

/// What the splitter collects from `s` up to the next separating pipe,
/// what is left behind that pipe, and whether there was such a pipe or
/// the text ended without one. `escaped` tells whether the character before
/// `s` was a backslash that still takes effect.
pub open spec fn scan_segment(s: Seq<char>, escaped: bool) -> (Seq<char>, Seq<char>, bool)
    decreases s.len(),
{
    if s.len() == 0 {
        (Seq::empty(), Seq::empty(), false)
    } else if !escaped && s[0] == ESCAPE {
        scan_segment(s.drop_first(), true)
    } else if !escaped && s[0] == DELIMITER {
        (Seq::empty(), s.drop_first(), true)
    } else {
        let (segment, rest, ended_by_pipe) = scan_segment(s.drop_first(), false);
        (seq![s[0]] + segment, rest, ended_by_pipe)
    }
}

/// A field as it was before it was escaped: what the splitter collects from it.
pub open spec fn unescaped(s: Seq<char>) -> Seq<char> {
    scan_segment(s, false).0
}

/// The segments that follow a segment: none where the text ended without
/// a pipe, one empty segment where nothing stands behind the pipe, and
/// else the segments of what stands behind it.
pub open spec fn segments_behind(rest: Seq<char>, ended_by_pipe: bool) -> Seq<Seq<char>>
    decreases rest.len(), 1int,
{
    if !ended_by_pipe {
        Seq::empty()
    } else if rest.len() == 0 {
        seq![Seq::empty()]
    } else {
        split_segments(rest)
    }
}

/// The segments of a line: one more than it has separating pipes. Only the
/// empty line has none.
pub open spec fn split_segments(s: Seq<char>) -> Seq<Seq<char>>
    decreases s.len(), 0int,
    via split_segments_decreases
{
    if s.len() == 0 {
        Seq::empty()
    } else {
        let (segment, rest, ended_by_pipe) = scan_segment(s, false);
        seq![segment] + segments_behind(rest, ended_by_pipe)
    }
}

#[via_fn]
proof fn split_segments_decreases(s: Seq<char>) {
    lemma_scan_rest(s, false);
}

/// How many pipes of a text separate segments: those that no backslash
/// escapes. `escaped` tells whether the character before `s` was a
/// backslash that still takes effect.
pub open spec fn separating_pipes(s: Seq<char>, escaped: bool) -> nat
    decreases s.len(),
{
    if s.len() == 0 {
        0
    } else if !escaped && s[0] == ESCAPE {
        separating_pipes(s.drop_first(), true)
    } else if !escaped && s[0] == DELIMITER {
        1 + separating_pipes(s.drop_first(), false)
    } else {
        separating_pipes(s.drop_first(), false)
    }
}

/// Up to the end of a segment a text has one separating pipe if a pipe
/// ends the segment, and none else; the others stand behind the segment.
pub proof fn lemma_pipes_behind_segment(s: Seq<char>, escaped: bool)
    ensures
        separating_pipes(s, escaped) == if scan_segment(s, escaped).2 {
            1 + separating_pipes(scan_segment(s, escaped).1, false)
        } else {
            0
        },
    decreases s.len(),
{
    if s.len() == 0 {
    } else if !escaped && s[0] == ESCAPE {
        lemma_pipes_behind_segment(s.drop_first(), true);
    } else if !escaped && s[0] == DELIMITER {
    } else {
        lemma_pipes_behind_segment(s.drop_first(), false);
    }
}

/// A text that is not empty has one segment more than it has separating pipes.
pub proof fn lemma_segments_count(s: Seq<char>)
    requires
        s.len() > 0,
    ensures
        split_segments(s).len() == 1 + separating_pipes(s, false),
    decreases s.len(),
{
    let (segment, rest, ended_by_pipe) = scan_segment(s, false);
    lemma_pipes_behind_segment(s, false);
    lemma_scan_rest(s, false);
    if ended_by_pipe && rest.len() > 0 {
        lemma_segments_count(rest);
    }
}

/// The texts of a vector of strings.
pub open spec fn texts(v: Seq<String>) -> Seq<Seq<char>> {
    Seq::new(v.len(), |i: int| v[i]@)
}

/// What is left behind a segment is the end of what was scanned, and shorter
/// than it unless nothing was scanned.
pub proof fn lemma_scan_rest(s: Seq<char>, escaped: bool)
    ensures
        scan_segment(s, escaped).1.len() <= s.len(),
        s.len() > 0 ==> scan_segment(s, escaped).1.len() < s.len(),
        scan_segment(s, escaped).1 == s.skip(s.len() - scan_segment(s, escaped).1.len()),
    decreases s.len(),
{
    if s.len() == 0 {
        assert(s.skip(0) =~= Seq::<char>::empty());
    } else if !escaped && s[0] == ESCAPE {
        lemma_scan_rest(s.drop_first(), true);
        let rest = scan_segment(s.drop_first(), true).1;
        assert(s.drop_first().skip(s.drop_first().len() - rest.len()) =~= s.skip(
            s.len() - rest.len(),
        ));
    } else if !escaped && s[0] == DELIMITER {
        assert(s.drop_first() =~= s.skip(1));
    } else {
        lemma_scan_rest(s.drop_first(), false);
        let rest = scan_segment(s.drop_first(), false).1;
        assert(s.drop_first().skip(s.drop_first().len() - rest.len()) =~= s.skip(
            s.len() - rest.len(),
        ));
    }
}

/// Replacing goes through a text piece by piece.
pub proof fn lemma_replaced_concat(a: Seq<char>, b: Seq<char>, c: char, with: Seq<char>)
    ensures
        replaced(a + b, c, with) == replaced(a, c, with) + replaced(b, c, with),
    decreases a.len(),
{
    if a.len() == 0 {
        assert(a + b =~= b);
        assert(replaced(a, c, with) + replaced(b, c, with) =~= replaced(b, c, with));
    } else {
        assert((a + b).drop_first() =~= a.drop_first() + b);
        lemma_replaced_concat(a.drop_first(), b, c, with);
        let head = if a[0] == c {
            with
        } else {
            seq![a[0]]
        };
        assert(head + (replaced(a.drop_first(), c, with) + replaced(b, c, with)) =~= (head
            + replaced(a.drop_first(), c, with)) + replaced(b, c, with));
    }
}

/// The two passes of the escaping come to one pass that writes each
/// backslash and each pipe with a backslash before it.
pub proof fn lemma_escaped_by_char(s: Seq<char>)
    ensures
        escaped(s) == escaped_by_char(s),
    decreases s.len(),
{
    let doubled = seq![ESCAPE, ESCAPE];
    let piped = seq![ESCAPE, DELIMITER];
    if s.len() == 0 {
    } else {
        let t = s.drop_first();
        lemma_escaped_by_char(t);
        let head = if s[0] == ESCAPE {
            doubled
        } else {
            seq![s[0]]
        };
        lemma_replaced_concat(head, replaced(t, ESCAPE, doubled), DELIMITER, piped);
        if s[0] == ESCAPE {
            let h1 = head.drop_first();
            assert(h1 =~= seq![ESCAPE]);
            assert(h1.drop_first() =~= Seq::<char>::empty());
            assert(replaced(h1.drop_first(), DELIMITER, piped) =~= Seq::<char>::empty());
            assert(replaced(h1, DELIMITER, piped) =~= seq![ESCAPE]);
            assert(replaced(head, DELIMITER, piped) =~= escaped_char(s[0]));
        } else {
            assert(head.drop_first() =~= Seq::<char>::empty());
            assert(replaced(head.drop_first(), DELIMITER, piped) =~= Seq::<char>::empty());
            assert(replaced(head, DELIMITER, piped) =~= escaped_char(s[0]));
        }
    }
}

/// The splitter reads an escaped field back as it was, whatever follows it.
pub proof fn lemma_scan_escaped(s: Seq<char>, tail: Seq<char>)
    ensures
        scan_segment(escaped_by_char(s) + tail, false) == (
            s + scan_segment(tail, false).0,
            scan_segment(tail, false).1,
            scan_segment(tail, false).2,
        ),
    decreases s.len(),
{
    if s.len() == 0 {
        assert(escaped_by_char(s) + tail =~= tail);
        assert(s + scan_segment(tail, false).0 =~= scan_segment(tail, false).0);
    } else {
        let c = s[0];
        let t = s.drop_first();
        let z = escaped_by_char(t) + tail;
        lemma_scan_escaped(t, tail);
        let whole = escaped_by_char(s) + tail;
        let inner = scan_segment(tail, false).0;
        assert(seq![c] + (t + inner) =~= s + inner);
        if c == ESCAPE || c == DELIMITER {
            assert(whole =~= seq![ESCAPE, c] + z);
            let after = whole.drop_first();
            assert(after =~= seq![c] + z);
            assert(after.drop_first() =~= z);
            assert(scan_segment(whole, false) == scan_segment(after, true));
            assert(scan_segment(after, true) == (
                seq![c] + scan_segment(z, false).0,
                scan_segment(z, false).1,
                scan_segment(z, false).2,
            ));
        } else {
            assert(whole =~= seq![c] + z);
            assert(whole.drop_first() =~= z);
            assert(scan_segment(whole, false) == (
                seq![c] + scan_segment(z, false).0,
                scan_segment(z, false).1,
                scan_segment(z, false).2,
            ));
        }
    }
}

/// Escaping loses nothing: the splitter reads every escaped text back as
/// it was, as one segment.
pub proof fn lemma_unescape_escape(s: Seq<char>)
    ensures
        unescaped(escaped(s)) == s,
        s.len() > 0 ==> split_segments(escaped(s)) == seq![s],
{
    lemma_escaped_by_char(s);
    lemma_scan_last(s);
    if s.len() > 0 {
        lemma_escaped_len(s);
        assert(seq![s] + Seq::<Seq<char>>::empty() =~= seq![s]);
    }
}

/// An escaped text is at least as long as the text.
pub proof fn lemma_escaped_len(s: Seq<char>)
    ensures
        escaped_by_char(s).len() >= s.len(),
    decreases s.len(),
{
    if s.len() > 0 {
        lemma_escaped_len(s.drop_first());
    }
}

/// Escaping goes through a text piece by piece.
pub proof fn lemma_escaped_concat(a: Seq<char>, b: Seq<char>)
    ensures
        escaped_by_char(a + b) == escaped_by_char(a) + escaped_by_char(b),
    decreases a.len(),
{
    if a.len() == 0 {
        assert(a + b =~= b);
        assert(escaped_by_char(a) + escaped_by_char(b) =~= escaped_by_char(b));
    } else {
        assert((a + b).drop_first() =~= a.drop_first() + b);
        lemma_escaped_concat(a.drop_first(), b);
        assert(escaped_char(a[0]) + (escaped_by_char(a.drop_first()) + escaped_by_char(b))
            =~= (escaped_char(a[0]) + escaped_by_char(a.drop_first())) + escaped_by_char(b));
    }
}

/// Whether a text holds neither a pipe nor a backslash.
pub open spec fn is_plain(s: Seq<char>) -> bool {
    forall|i: int| 0 <= i < s.len() ==> #[trigger] s[i] != DELIMITER && s[i] != ESCAPE
}

/// Escaping leaves a text without pipes and backslashes as it is.
pub proof fn lemma_escaped_plain(s: Seq<char>)
    requires
        is_plain(s),
    ensures
        escaped_by_char(s) == s,
    decreases s.len(),
{
    if s.len() == 0 {
        assert(s =~= Seq::<char>::empty());
    } else {
        let t = s.drop_first();
        assert forall|i: int| 0 <= i < t.len() implies #[trigger] t[i] != DELIMITER && t[i]
            != ESCAPE by {
            assert(t[i] == s[i + 1]);
        }
        lemma_escaped_plain(t);
        assert(s[0] != DELIMITER && s[0] != ESCAPE);
        assert(seq![s[0]] + t =~= s);
    }
}

/// The splitter reads an escaped field that a pipe ends back as it was, and
/// leaves what follows the pipe.
pub proof fn lemma_scan_field(s: Seq<char>, rest: Seq<char>)
    ensures
        scan_segment(escaped_by_char(s) + seq![DELIMITER] + rest, false) == (s, rest, true),
{
    let tail = seq![DELIMITER] + rest;
    assert(tail.drop_first() =~= rest);
    assert(scan_segment(tail, false) == (Seq::<char>::empty(), rest, true));
    lemma_scan_escaped(s, tail);
    assert(escaped_by_char(s) + seq![DELIMITER] + rest =~= escaped_by_char(s) + tail);
    assert(s + Seq::<char>::empty() =~= s);
}

/// The splitter reads an escaped field at the end of a line back as it was.
pub proof fn lemma_scan_last(s: Seq<char>)
    ensures
        scan_segment(escaped_by_char(s), false) == (s, Seq::<char>::empty(), false),
{
    lemma_scan_escaped(s, Seq::empty());
    assert(escaped_by_char(s) + Seq::<char>::empty() =~= escaped_by_char(s));
    assert(s + Seq::<char>::empty() =~= s);
}

/// Three fields, escaped and joined by pipes, are the three segments of the
/// line they make.
pub proof fn lemma_split_three(a: Seq<char>, b: Seq<char>, c: Seq<char>)
    ensures
        split_segments(
            escaped_by_char(a) + seq![DELIMITER] + escaped_by_char(b) + seq![DELIMITER]
                + escaped_by_char(c),
        ) == seq![a, b, c],
{
    let bar = seq![DELIMITER];
    let rest2 = escaped_by_char(c);
    let rest1 = escaped_by_char(b) + bar + rest2;
    let line = escaped_by_char(a) + bar + rest1;
    assert(line =~= escaped_by_char(a) + bar + escaped_by_char(b) + bar + escaped_by_char(c));
    lemma_escaped_len(c);
    lemma_scan_field(a, rest1);
    lemma_scan_field(b, rest2);
    lemma_scan_last(c);
    if rest2.len() == 0 {
        assert(c =~= Seq::<char>::empty());
        assert(segments_behind(rest2, true) =~= seq![c]);
    } else {
        assert(split_segments(rest2) =~= seq![c]);
    }
    assert(split_segments(rest1) =~= seq![b, c]);
    assert(split_segments(line) =~= seq![a, b, c]);
}

/// `s` with each `c` in it replaced by `with`.
pub fn replace_char(s: &str, c: char, with: &str) -> (r: String)
    ensures
        r@ == replaced(s@, c, with@),
{
    let v = chars_of(s);
    let mut r = String::new();
    let mut i: usize = 0;
    assert(v@.skip(0) =~= v@);
    assert(r@ + replaced(v@, c, with@) =~= replaced(v@, c, with@));
    while i < v.len()
        invariant
            i <= v.len(),
            v@ == s@,
            r@ + replaced(v@.skip(i as int), c, with@) == replaced(v@, c, with@),
        decreases v.len() - i,
    {
        let ghost before = r@;
        let ghost here = v@.skip(i as int);
        assert(here.drop_first() =~= v@.skip(i + 1));
        if v[i] == c {
            r.append(with);
        } else {
            r.push(v[i]);
        }
        proof {
            let head = if here[0] == c {
                with@
            } else {
                seq![here[0]]
            };
            assert(r@ =~= before + head);
            assert((before + head) + replaced(here.drop_first(), c, with@) =~= before + (head
                + replaced(here.drop_first(), c, with@)));
        }
        i += 1;
    }
    assert(r@ + Seq::<char>::empty() =~= r@);
    r
}

/// Escapes the pipe, so that it can separate the parts of an activity, and
/// the backslash, which does the escaping.
pub fn escape_special_chars(s: &str) -> (r: String)
    ensures
        r@ == escaped(s@),
{
    proof {
        reveal_strlit("\\\\");
        reveal_strlit("\\|");
        assert("\\\\"@ =~= seq![ESCAPE, ESCAPE]);
        assert("\\|"@ =~= seq![ESCAPE, DELIMITER]);
    }
    let doubled = replace_char(s, ESCAPE, "\\\\");
    replace_char(doubled.as_str(), DELIMITER, "\\|")
}

/// Cuts a text into segments at the pipes that no backslash escapes, one
/// segment with each call of `next`.
pub struct StringSplitter {
    chars: Vec<char>,
    position: usize,
    /// Whether the segment before ended in a pipe, so that one more is owed
    /// even if nothing is left to read.
    owed: bool,
}

impl StringSplitter {
    #[verifier::type_invariant]
    spec fn within(self) -> bool {
        self.position <= self.chars.len()
    }

    /// The segments that the splitter has not given out yet.
    pub closed spec fn segments(self) -> Seq<Seq<char>> {
        let rest = self.chars@.skip(self.position as int);
        if rest.len() == 0 {
            segments_behind(rest, self.owed)
        } else {
            split_segments(rest)
        }
    }

    /// The next segment, if one is left.
    pub fn next(&mut self) -> (r: Option<String>)
        ensures
            match r {
                Some(segment) => {
                    &&& old(self).segments().len() > 0
                    &&& segment@ == old(self).segments()[0]
                    &&& final(self).segments() == old(self).segments().drop_first()
                },
                None => old(self).segments().len() == 0 && final(self).segments().len() == 0,
            },
    {
        proof {
            use_type_invariant(&*self);
        }
        if self.position >= self.chars.len() {
            let ghost rest = self.chars@.skip(self.position as int);
            if self.owed {
                // the pipe before was the last character: the segment behind it is empty
                self.owed = false;
                assert(seq![Seq::<char>::empty()].drop_first() =~= Seq::<Seq<char>>::empty());
                return Some(String::new());
            }
            return None;
        }
        let ghost start = self.chars@.skip(self.position as int);
        let mut escaped = false;
        let mut collector = String::new();
        let mut i: usize = self.position;
        assert(collector@ + scan_segment(start, false).0 =~= scan_segment(start, false).0);
        while i < self.chars.len()
            invariant
                i <= self.chars.len(),
                self.chars == old(self).chars,
                self.position == old(self).position,
                self.position < self.chars.len(),
                start == self.chars@.skip(self.position as int),
                collector@ + scan_segment(self.chars@.skip(i as int), escaped).0 == scan_segment(
                    start,
                    false,
                ).0,
                scan_segment(self.chars@.skip(i as int), escaped).1 == scan_segment(start, false).1,
                scan_segment(self.chars@.skip(i as int), escaped).2 == scan_segment(start, false).2,
            decreases self.chars.len() - i,
        {
            let ghost here = self.chars@.skip(i as int);
            let ghost before = collector@;
            assert(here.drop_first() =~= self.chars@.skip(i + 1));
            let c = self.chars[i];
            i += 1;
            if c == ESCAPE && !escaped {
                escaped = true;
            } else if c == DELIMITER && !escaped {
                self.position = i;
                self.owed = true;
                proof {
                    assert(before + Seq::<char>::empty() =~= before);
                    assert(seq![before] + segments_behind(here.drop_first(), true) =~= split_segments(
                        start,
                    ));
                    assert(split_segments(start).drop_first() =~= segments_behind(
                        here.drop_first(),
                        true,
                    ));
                }
                return Some(collector);
            } else {
                escaped = false;
                collector.push(c);
                proof {
                    let inner = scan_segment(here.drop_first(), false).0;
                    assert(before.push(c) + inner =~= before + (seq![c] + inner));
                }
            }
        }
        self.position = i;
        self.owed = false;
        proof {
            assert(self.chars@.skip(i as int) =~= Seq::<char>::empty());
            assert(collector@ + Seq::<char>::empty() =~= collector@);
            assert(split_segments(start) =~= seq![collector@]);
            assert(split_segments(start).drop_first() =~= Seq::<Seq<char>>::empty());
        }
        Some(collector)
    }

    /// All the segments that are left.
    pub fn collect(self) -> (v: Vec<String>)
        ensures
            texts(v@) == self.segments(),
    {
        let mut splitter = self;
        let mut v: Vec<String> = Vec::new();
        assert(texts(v@) + splitter.segments() =~= self.segments());
        loop
            invariant
                texts(v@) + splitter.segments() == self.segments(),
            ensures
                texts(v@) == self.segments(),
            decreases splitter.segments().len(),
        {
            let ghost left = splitter.segments();
            let ghost so_far = texts(v@);
            match splitter.next() {
                None => {
                    assert(so_far + left =~= so_far);
                    break ;
                },
                Some(segment) => {
                    v.push(segment);
                    assert(texts(v@) =~= so_far + seq![segment@]);
                    assert(left =~= seq![segment@] + left.drop_first());
                    assert((so_far + seq![segment@]) + left.drop_first() =~= so_far + (seq![
                        segment@,
                    ] + left.drop_first()));
                },
            }
        }
        v
    }
}

/// A splitter over the whole of a text.
pub fn split_with_escaped_delimiter(s: &str) -> (r: StringSplitter)
    ensures
        r.segments() == split_segments(s@),
{
    let chars = chars_of(s);
    assert(chars@.skip(0) =~= chars@);
    StringSplitter { chars, position: 0, owed: false }
}

} // verus!
