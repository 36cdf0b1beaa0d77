//! Texts taken apart: into words at white space, and into lines.

use crate::text::chars_of;
use vstd::prelude::*;

verus! {

/// The characters that Unicode counts as white space.
pub open spec fn is_space(c: char) -> bool {
    ||| '\u{9}' <= c <= '\u{d}'
    ||| c == ' '
    ||| c == '\u{85}'
    ||| c == '\u{a0}'
    ||| c == '\u{1680}'
    ||| '\u{2000}' <= c <= '\u{200a}'
    ||| c == '\u{2028}'
    ||| c == '\u{2029}'
    ||| c == '\u{202f}'
    ||| c == '\u{205f}'
    ||| c == '\u{3000}'
}

fn space(c: char) -> (r: bool)
    ensures
        r == is_space(c),
{
    ('\u{9}' <= c && c <= '\u{d}') || c == ' ' || c == '\u{85}' || c == '\u{a0}' || c == '\u{1680}'
        || ('\u{2000}' <= c && c <= '\u{200a}') || c == '\u{2028}' || c == '\u{2029}' || c
        == '\u{202f}' || c == '\u{205f}' || c == '\u{3000}'
}

/// With the character added to the last of the parts.
pub open spec fn extended(parts: Seq<Seq<char>>, c: char) -> Seq<Seq<char>> {
    parts.drop_last().push(parts.last().push(c))
}

/// The words of a text: the longest runs without white space. Each character that is not white
/// space belongs to the last word, or begins one after white space.
pub open spec fn words(s: Seq<char>) -> Seq<Seq<char>>
    decreases s.len(),
{
    if s.len() == 0 {
        Seq::empty()
    } else {
        let before = words(s.drop_last());
        let c = s.last();
        if is_space(c) {
            before
        } else if s.len() == 1 || is_space(s[s.len() - 2]) {
            before.push(seq![c])
        } else {
            extended(before, c)
        }
    }
}

/// The lines of a text, without the line feeds that end them.
pub open spec fn lines(s: Seq<char>) -> Seq<Seq<char>>
    decreases s.len(),
{
    if s.len() == 0 {
        Seq::empty()
    } else {
        let before = lines(s.drop_last());
        let c = s.last();
        if s.len() == 1 || s[s.len() - 2] == '\n' {
            before.push(
                if c == '\n' {
                    Seq::empty()
                } else {
                    seq![c]
                },
            )
        } else if c == '\n' {
            before
        } else {
            extended(before, c)
        }
    }
}

/// The words of a text.
pub fn words_of(s: &str) -> (r: Vec<String>)
    ensures
        r.deep_view() == words(s@),
{
    let chars = chars_of(s);
    let mut out: Vec<String> = Vec::new();
    let mut word = String::new();
    let mut i: usize = 0;
    assert(out.deep_view() =~= words(s@.take(0)));
    while i < chars.len()
        invariant
            i <= chars@.len(),
            chars@ == s@,
            i > 0 && !is_space(s@[i - 1]) ==> words(s@.take(i as int)) == out.deep_view().push(
                word@,
            ),
            i == 0 || is_space(s@[i - 1]) ==> words(s@.take(i as int)) == out.deep_view()
                && word@.len() == 0,
        decreases chars@.len() - i,
    {
        let c = chars[i];
        let ghost sofar = s@.take(i + 1);
        assert(sofar.drop_last() =~= s@.take(i as int));
        assert(sofar.last() == c);
        if space(c) {
            if i > 0 && !space(chars[i - 1]) {
                let ghost before = out.deep_view();
                let ghost last = word@;
                out.push(word);
                assert(out.deep_view() =~= before.push(last));
                word = String::new();
            }
        } else {
            let ghost before = word@;
            word.push(c);
            proof {
                if i == 0 || is_space(s@[i - 1]) {
                    assert(word@ =~= seq![c]);
                } else {
                    assert(extended(out.deep_view().push(before), c) =~= out.deep_view().push(
                        word@,
                    ));
                }
            }
        }
        i = i + 1;
    }
    assert(s@.take(i as int) =~= s@);
    if i > 0 && !space(chars[i - 1]) {
        let ghost before = out.deep_view();
        let ghost last = word@;
        out.push(word);
        assert(out.deep_view() =~= before.push(last));
    }
    out
}

/// The lines of a text.
pub fn lines_of(s: &str) -> (r: Vec<String>)
    ensures
        r.deep_view() == lines(s@),
{
    let chars = chars_of(s);
    let mut out: Vec<String> = Vec::new();
    let mut line = String::new();
    let mut i: usize = 0;
    assert(out.deep_view() =~= lines(s@.take(0)));
    while i < chars.len()
        invariant
            i <= chars@.len(),
            chars@ == s@,
            i > 0 && s@[i - 1] != '\n' ==> lines(s@.take(i as int)) == out.deep_view().push(line@),
            i == 0 || s@[i - 1] == '\n' ==> lines(s@.take(i as int)) == out.deep_view()
                && line@.len() == 0,
        decreases chars@.len() - i,
    {
        let c = chars[i];
        let ghost sofar = s@.take(i + 1);
        assert(sofar.drop_last() =~= s@.take(i as int));
        assert(sofar.last() == c);
        if c == '\n' {
            let ghost before = out.deep_view();
            let ghost last = line@;
            proof {
                assert(last.len() == 0 ==> last =~= Seq::empty());
            }
            out.push(line);
            assert(out.deep_view() =~= before.push(last));
            line = String::new();
        } else {
            let ghost before = line@;
            line.push(c);
            proof {
                if i == 0 || s@[i - 1] == '\n' {
                    assert(line@ =~= seq![c]);
                } else {
                    assert(extended(out.deep_view().push(before), c) =~= out.deep_view().push(
                        line@,
                    ));
                }
            }
        }
        i = i + 1;
    }
    assert(s@.take(i as int) =~= s@);
    if i > 0 && chars[i - 1] != '\n' {
        let ghost before = out.deep_view();
        let ghost last = line@;
        out.push(line);
        assert(out.deep_view() =~= before.push(last));
    }
    out
}

/// White space parts words, and does nothing else: the words before it and the words after it are
/// the words of the whole.
pub proof fn law_space_parts_words(a: Seq<char>, c: char, b: Seq<char>)
    requires
        is_space(c),
    ensures
        words(a.push(c) + b) == words(a) + words(b),
    decreases b.len(),
{
    let s = a.push(c) + b;
    if b.len() == 0 {
        assert(s =~= a.push(c));
        assert(s.drop_last() =~= a);
        assert(words(a) + words(b) =~= words(a));
    } else {
        law_space_parts_words(a, c, b.drop_last());
        assert(s.drop_last() =~= a.push(c) + b.drop_last());
        assert(s.last() == b.last());
        let before = words(b.drop_last());
        if !is_space(b.last()) {
            if b.len() == 1 {
                assert(s[s.len() - 2] == c);
                assert((words(a) + before).push(seq![b.last()]) =~= words(a) + before.push(
                    seq![b.last()],
                ));
            } else {
                assert(s[s.len() - 2] == b[b.len() - 2]);
                if is_space(b[b.len() - 2]) {
                    assert((words(a) + before).push(seq![b.last()]) =~= words(a) + before.push(
                        seq![b.last()],
                    ));
                } else {
                    lemma_ends_in_a_word(b.drop_last());
                    assert(extended(words(a) + before, b.last()) =~= words(a) + extended(
                        before,
                        b.last(),
                    ));
                }
            }
        }
    }
}

proof fn lemma_ends_in_a_word(s: Seq<char>)
    requires
        s.len() > 0,
        !is_space(s.last()),
    ensures
        words(s).len() > 0,
    decreases s.len(),
{
    if s.len() > 1 && !is_space(s[s.len() - 2]) {
        lemma_ends_in_a_word(s.drop_last());
    }
}

/// A text without white space is one word, if it is any.
pub proof fn law_no_space_is_one_word(w: Seq<char>)
    requires
        w.len() > 0,
        forall|i: int| 0 <= i < w.len() ==> !is_space(#[trigger] w[i]),
    ensures
        words(w) == seq![w],
        words(Seq::empty()) == Seq::<Seq<char>>::empty(),
    decreases w.len(),
{
    if w.len() == 1 {
        assert(w =~= seq![w[0]]);
        assert(words(w.drop_last()) =~= Seq::empty());
    } else {
        assert(!is_space(w[w.len() - 2]));
        law_no_space_is_one_word(w.drop_last());
        assert(w.drop_last().push(w.last()) =~= w);
        assert(extended(seq![w.drop_last()], w.last()) =~= seq![w]);
    }
}

/// A line feed parts lines: what comes before it is lines of its own, and what comes after it too.
pub proof fn law_line_feed_parts_lines(a: Seq<char>, b: Seq<char>)
    ensures
        lines(a.push('\n') + b) == lines(a.push('\n')) + lines(b),
    decreases b.len(),
{
    let s = a.push('\n') + b;
    let x = lines(a.push('\n'));
    if b.len() == 0 {
        assert(s =~= a.push('\n'));
        assert(x + lines(b) =~= x);
    } else {
        law_line_feed_parts_lines(a, b.drop_last());
        assert(s.drop_last() =~= a.push('\n') + b.drop_last());
        assert(s.last() == b.last());
        let before = lines(b.drop_last());
        let begun = if b.last() == '\n' {
            Seq::empty()
        } else {
            seq![b.last()]
        };
        if b.len() == 1 {
            assert(s[s.len() - 2] == '\n');
            assert((x + before).push(begun) =~= x + before.push(begun));
        } else {
            assert(s[s.len() - 2] == b[b.len() - 2]);
            if b[b.len() - 2] == '\n' {
                assert((x + before).push(begun) =~= x + before.push(begun));
            } else if b.last() != '\n' {
                lemma_ends_in_a_line(b.drop_last());
                assert(extended(x + before, b.last()) =~= x + extended(before, b.last()));
            }
        }
    }
}

proof fn lemma_ends_in_a_line(s: Seq<char>)
    requires
        s.len() > 0,
    ensures
        lines(s).len() > 0,
    decreases s.len(),
{
    if s.len() > 1 {
        lemma_ends_in_a_line(s.drop_last());
    }
}

/// A text without line feeds is one line, if it is any; with a line feed at its end it is the same
/// line.
pub proof fn law_no_line_feed_is_one_line(line: Seq<char>)
    requires
        !line.contains('\n'),
    ensures
        line.len() > 0 ==> lines(line) == seq![line],
        lines(line.push('\n')) == seq![line],
        lines(Seq::empty()) == Seq::<Seq<char>>::empty(),
    decreases line.len(),
{
    let closed = line.push('\n');
    assert(closed.drop_last() =~= line);
    if line.len() == 0 {
        assert(closed.len() == 1);
        assert(line =~= Seq::empty());
        assert(lines(line) =~= Seq::empty());
        assert(lines(closed) =~= seq![line]);
    } else {
        let front = line.drop_last();
        assert(!front.contains('\n')) by {
            if front.contains('\n') {
                let i = front.index_of('\n');
                assert(line[i] == '\n');
            }
        }
        assert(line.contains(line.last()));
        law_no_line_feed_is_one_line(front);
        if line.len() == 1 {
            assert(lines(front) =~= Seq::empty());
            assert(line =~= seq![line[0]]);
            assert(lines(line) =~= seq![line]);
        } else {
            assert(line.contains(line[line.len() - 2]));
            assert(front.push(line.last()) =~= line);
            assert(extended(seq![front], line.last()) =~= seq![line]);
        }
        assert(closed[closed.len() - 2] == line.last());
    }
}

/// Blanks, tabs and line ends are white space; letters, digits and the signs that numbers and names
/// are written with are not.
pub proof fn law_blanks_are_space(c: char)
    ensures
        is_space(' ') && is_space('\t') && is_space('\n') && is_space('\r'),
        'a' <= c <= 'z' || 'A' <= c <= 'Z' || '0' <= c <= '9' ==> !is_space(c),
        !is_space('-') && !is_space(':') && !is_space('(') && !is_space(')') && !is_space('_'),
{
}

} // verus!
