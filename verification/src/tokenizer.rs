//! From the text of a stub generator to its tokens.

use vstd::prelude::*;
use crate::text::join_with;

verus! {

/// The model of a list of tokens.
pub open spec fn tokens_view(v: Seq<Vec<char>>) -> Seq<Seq<char>> {
    Seq::new(v.len(), |i: int| v[i]@)
}

/// The text with a space on either side of every line break.
pub open spec fn pad_newlines(s: Seq<char>) -> Seq<char>
    decreases s.len(),
{
    if s.len() == 0 {
        Seq::empty()
    } else if s.last() == '\n' {
        pad_newlines(s.drop_last()) + seq![' ', '\n', ' ']
    } else {
        pad_newlines(s.drop_last()).push(s.last())
    }
}

/// Whether the text goes on, at `i`, with a line break, two spaces and a
/// line break.
pub open spec fn wide_blank_at(s: Seq<char>, i: int) -> bool {
    &&& 0 <= i
    &&& i + 4 <= s.len()
    &&& s[i] == '\n'
    &&& s[i + 1] == ' '
    &&& s[i + 2] == ' '
    &&& s[i + 3] == '\n'
}

/// The text with every line break, two spaces, line break made into line
/// break, one space, line break; found from the left, each match taken
/// whole.
pub open spec fn squeeze_blank(s: Seq<char>) -> Seq<char>
    decreases s.len(),
{
    if s.len() == 0 {
        Seq::empty()
    } else if wide_blank_at(s, 0) {
        seq!['\n', ' ', '\n'] + squeeze_blank(s.skip(4))
    } else {
        seq![s[0]] + squeeze_blank(s.skip(1))
    }
}

/// The pieces of a text between the occurrences of a separator. A text
/// without the separator is one piece, the empty text too.
pub open spec fn split_on(s: Seq<char>, sep: char) -> Seq<Seq<char>>
    decreases s.len(),
{
    if s.len() == 0 {
        seq![Seq::empty()]
    } else {
        let before = split_on(s.drop_last(), sep);
        if s.last() == sep {
            before.push(Seq::empty())
        } else {
            before.drop_last().push(before.last().push(s.last()))
        }
    }
}

/// The tokens of a stub generator: line breaks padded, wide blank lines
/// squeezed, and the result cut at every space.
pub open spec fn tokens_of(text: Seq<char>) -> Seq<Seq<char>> {
    split_on(squeeze_blank(pad_newlines(text)), ' ')
}

/// A split is never empty.
pub proof fn lemma_split_on_nonempty(s: Seq<char>, sep: char)
    ensures
        split_on(s, sep).len() >= 1,
    decreases s.len(),
{
    if s.len() > 0 {
        lemma_split_on_nonempty(s.drop_last(), sep);
    }
}

/// Cutting a text at a separator and joining the pieces with it again gives
/// the text, and no piece holds the separator.
pub proof fn lemma_split_then_join(s: Seq<char>, sep: char)
    ensures
        join_with(split_on(s, sep), seq![sep]) == s,
        forall|i: int| 0 <= i < split_on(s, sep).len() ==> !(#[trigger] split_on(s, sep)[i]).contains(sep),
    decreases s.len(),
{
    if s.len() == 0 {
        assert(join_with(split_on(s, sep), seq![sep]) =~= s);
    } else {
        let front = s.drop_last();
        let before = split_on(front, sep);
        lemma_split_then_join(front, sep);
        lemma_split_on_nonempty(front, sep);
        let now = split_on(s, sep);
        if s.last() == sep {
            assert(now.drop_last() =~= before);
            assert(join_with(now, seq![sep]) =~= front + seq![sep] + Seq::<char>::empty());
            assert(front + seq![sep] + Seq::<char>::empty() =~= s);
        } else {
            let grown = before.last().push(s.last());
            assert(now.drop_last() =~= before.drop_last());
            assert(now.last() == grown);
            if before.len() == 1 {
                assert(join_with(before, seq![sep]) == before[0]);
                assert(join_with(now, seq![sep]) =~= s);
            } else {
                assert(join_with(before, seq![sep]) == join_with(before.drop_last(), seq![sep])
                    + seq![sep] + before.last());
                assert(join_with(now, seq![sep]) =~= (join_with(before.drop_last(), seq![sep])
                    + seq![sep] + before.last()).push(s.last()));
                assert(front.push(s.last()) =~= s);
            }
            assert forall|i: int| 0 <= i < now.len() implies !(#[trigger] now[i]).contains(sep) by {
                if i < now.len() - 1 {
                    assert(now[i] == before[i]);
                } else {
                    if grown.contains(sep) {
                        let k = choose|k: int| 0 <= k < grown.len() && grown[k] == sep;
                        assert(before.last()[k] == sep);
                        assert(before.last().contains(sep));
                    }
                }
            }
        }
    }
}

/// A text that does not hold the separator is one piece.
pub proof fn lemma_split_without(s: Seq<char>, sep: char)
    requires
        !s.contains(sep),
    ensures
        split_on(s, sep) == seq![s],
    decreases s.len(),
{
    if s.len() == 0 {
        assert(s =~= Seq::<char>::empty());
    } else {
        let front = s.drop_last();
        assert(!front.contains(sep)) by {
            if front.contains(sep) {
                let k = choose|k: int| 0 <= k < front.len() && front[k] == sep;
                assert(s[k] == sep);
            }
        }
        lemma_split_without(front, sep);
        assert(s[s.len() - 1] != sep);
        assert(s.last() != sep);
        assert(front.push(s.last()) =~= s);
        let before = split_on(front, sep);
        assert(before.drop_last() =~= Seq::<Seq<char>>::empty());
        assert(before.last() == front);
        assert(before.drop_last().push(before.last().push(s.last())) =~= seq![s]);
    }
}

/// What follows the last separator of a text is its last piece, and the
/// pieces before it are those of what stands before that separator.
pub proof fn lemma_split_after(a: Seq<char>, b: Seq<char>, sep: char)
    requires
        !b.contains(sep),
    ensures
        split_on(a + seq![sep] + b, sep) == split_on(a, sep).push(b),
    decreases b.len(),
{
    let s = a + seq![sep] + b;
    if b.len() == 0 {
        assert(s.drop_last() =~= a);
        assert(s.last() == sep);
        assert(b =~= Seq::<char>::empty());
    } else {
        let front = b.drop_last();
        assert(!front.contains(sep)) by {
            if front.contains(sep) {
                let k = choose|k: int| 0 <= k < front.len() && front[k] == sep;
                assert(b[k] == sep);
            }
        }
        lemma_split_after(a, front, sep);
        assert(s.drop_last() =~= a + seq![sep] + front);
        assert(s.last() == b.last());
        assert(b[b.len() - 1] != sep);
        assert(s.last() != sep);
        assert(front.push(b.last()) =~= b);
        let before = split_on(a, sep).push(front);
        assert(before.drop_last() =~= split_on(a, sep));
        assert(split_on(s, sep) =~= split_on(a, sep).push(b));
    }
}

/// Whether every line break of the text has a space right before it, unless
/// the text begins with it, and a space right after it.
pub open spec fn breaks_stand_alone(s: Seq<char>) -> bool {
    forall|i: int|
        0 <= i < s.len() && #[trigger] s[i] == '\n' ==> i + 1 < s.len() && s[i + 1] == ' ' && (i > 0
            ==> s[i - 1] == ' ')
}

/// In a padded text every line break stands alone, and the text begins
/// with no line break.
pub proof fn lemma_pad_isolates_breaks(s: Seq<char>)
    ensures
        breaks_stand_alone(pad_newlines(s)),
        pad_newlines(s).len() > 0 ==> pad_newlines(s)[0] != '\n',
    decreases s.len(),
{
    if s.len() > 0 {
        lemma_pad_isolates_breaks(s.drop_last());
        let before = pad_newlines(s.drop_last());
        let now = pad_newlines(s);
        assert forall|i: int| 0 <= i < now.len() && #[trigger] now[i] == '\n' implies i + 1
            < now.len() && now[i + 1] == ' ' && (i > 0 ==> now[i - 1] == ' ') by {
            if i < before.len() {
                assert(before[i] == '\n');
                assert(now[i + 1] == before[i + 1]);
                if i > 0 {
                    assert(now[i - 1] == before[i - 1]);
                }
            }
        }
    }
}

/// Squeezing keeps every line break alone, and keeps the first character.
pub proof fn lemma_squeeze_keeps_breaks_alone(s: Seq<char>)
    requires
        breaks_stand_alone(s),
    ensures
        breaks_stand_alone(squeeze_blank(s)),
        s.len() > 0 ==> squeeze_blank(s).len() > 0 && squeeze_blank(s)[0] == s[0],
    decreases s.len(),
{
    if s.len() > 0 {
        let out = squeeze_blank(s);
        if wide_blank_at(s, 0) {
            let rest = s.skip(4);
            assert(s[3] == '\n');
            assert(rest.len() > 0 && rest[0] == ' ');
            assert forall|i: int| 0 <= i < rest.len() && #[trigger] rest[i] == '\n' implies i + 1
                < rest.len() && rest[i + 1] == ' ' && (i > 0 ==> rest[i - 1] == ' ') by {
                assert(s[i + 4] == '\n');
            }
            lemma_squeeze_keeps_breaks_alone(rest);
            let tail = squeeze_blank(rest);
            assert forall|i: int| 0 <= i < out.len() && #[trigger] out[i] == '\n' implies i + 1
                < out.len() && out[i + 1] == ' ' && (i > 0 ==> out[i - 1] == ' ') by {
                if i >= 3 {
                    assert(tail[i - 3] == '\n');
                    assert(out[i + 1] == tail[i - 2]);
                    assert(out[i - 1] == tail[i - 4]);
                } else if i == 2 {
                    assert(out[3] == tail[0]);
                }
            }
        } else {
            let rest = s.skip(1);
            assert forall|i: int| 0 <= i < rest.len() && #[trigger] rest[i] == '\n' implies i + 1
                < rest.len() && rest[i + 1] == ' ' && (i > 0 ==> rest[i - 1] == ' ') by {
                assert(s[i + 1] == '\n');
            }
            lemma_squeeze_keeps_breaks_alone(rest);
            let tail = squeeze_blank(rest);
            assert forall|i: int| 0 <= i < out.len() && #[trigger] out[i] == '\n' implies i + 1
                < out.len() && out[i + 1] == ' ' && (i > 0 ==> out[i - 1] == ' ') by {
                if i == 0 {
                    assert(s[0] == '\n');
                    assert(rest[0] == ' ');
                    assert(out[1] == tail[0]);
                } else {
                    assert(tail[i - 1] == '\n');
                    assert(out[i + 1] == tail[i]);
                    if i == 1 {
                        assert(rest[0] == '\n');
                        assert(s[1] == '\n');
                    } else {
                        assert(out[i - 1] == tail[i - 2]);
                    }
                }
            }
        }
    }
}

/// Cut at its spaces, a text in which every line break stands alone has
/// each line break as a piece of its own.
pub proof fn lemma_split_isolates_breaks(u: Seq<char>, n: int)
    requires
        breaks_stand_alone(u),
        0 <= n <= u.len(),
    ensures
        forall|i: int|
            0 <= i < split_on(u.take(n), ' ').len() && (#[trigger] split_on(
                u.take(n),
                ' ',
            )[i]).contains('\n') ==> split_on(u.take(n), ' ')[i] == seq!['\n'],
        n > 0 && u[n - 1] != ' ' ==> split_on(u.take(n), ' ').last().len() > 0 && split_on(
            u.take(n),
            ' ',
        ).last().last() == u[n - 1],
        n > 0 && u[n - 1] == ' ' ==> split_on(u.take(n), ' ').last().len() == 0,
    decreases n,
{
    let s = u.take(n);
    let now = split_on(s, ' ');
    lemma_split_on_nonempty(s, ' ');
    if n == 0 {
        assert forall|i: int| 0 <= i < now.len() && (#[trigger] now[i]).contains('\n') implies now[i]
            == seq!['\n'] by {
            assert(now[i].len() == 0);
            let k = choose|k: int| 0 <= k < now[i].len() && now[i][k] == '\n';
        }
    } else {
        lemma_split_isolates_breaks(u, n - 1);
        let front = u.take(n - 1);
        assert(s.drop_last() =~= front);
        assert(s.last() == u[n - 1]);
        let before = split_on(front, ' ');
        lemma_split_on_nonempty(front, ' ');
        let c = u[n - 1];
        if c != ' ' {
            let grown = before.last().push(c);
            assert(now.last() == grown);
            assert forall|i: int| 0 <= i < now.len() && (#[trigger] now[i]).contains(
                '\n',
            ) implies now[i] == seq!['\n'] by {
                if i < now.len() - 1 {
                    assert(now[i] == before[i]);
                } else {
                    let k = choose|k: int| 0 <= k < grown.len() && grown[k] == '\n';
                    if c == '\n' {
                        if n - 1 > 0 {
                            assert(u[n - 2] == ' ');
                        }
                        assert(before.last().len() == 0);
                        assert(grown =~= seq!['\n']);
                    } else {
                        assert(before.last()[k] == '\n');
                        assert(before.last().contains('\n'));
                        assert(before.last() == seq!['\n']);
                        assert(u[n - 2] == '\n');
                        assert(u[n - 1] == ' ');
                    }
                }
            }
        } else {
            assert forall|i: int| 0 <= i < now.len() && (#[trigger] now[i]).contains(
                '\n',
            ) implies now[i] == seq!['\n'] by {
                if i < now.len() - 1 {
                    assert(now[i] == before[i]);
                } else {
                    let k = choose|k: int| 0 <= k < now[i].len() && now[i][k] == '\n';
                }
            }
        }
    }
}

/// A line break is always a token of its own, and no token holds a space:
/// every token is free of spaces, and a token that holds a line break is
/// that line break alone. Joined by single spaces, the tokens are the text
/// with its line breaks padded and its wide blank lines squeezed.
pub proof fn lemma_tokens_are_separate(text: Seq<char>)
    ensures
        forall|i: int|
            0 <= i < tokens_of(text).len() ==> !(#[trigger] tokens_of(text)[i]).contains(' '),
        forall|i: int|
            0 <= i < tokens_of(text).len() && (#[trigger] tokens_of(text)[i]).contains('\n')
                ==> tokens_of(text)[i] == seq!['\n'],
        join_with(tokens_of(text), seq![' ']) == squeeze_blank(pad_newlines(text)),
        tokens_of(text).len() >= 1,
{
    let u = squeeze_blank(pad_newlines(text));
    lemma_pad_isolates_breaks(text);
    lemma_squeeze_keeps_breaks_alone(pad_newlines(text));
    lemma_split_isolates_breaks(u, u.len() as int);
    assert(u.take(u.len() as int) =~= u);
    lemma_split_then_join(u, ' ');
    lemma_split_on_nonempty(u, ' ');
}

/// Pads every line break of the text with a space on either side.
pub fn pad(text: &Vec<char>) -> (r: Vec<char>)
    ensures
        r@ == pad_newlines(text@),
{
    let mut r: Vec<char> = Vec::new();
    let mut i: usize = 0;
    while i < text.len()
        invariant
            i <= text@.len(),
            r@ == pad_newlines(text@.take(i as int)),
        decreases text@.len() - i,
    {
        let c = text[i];
        if c == '\n' {
            r.push(' ');
            r.push('\n');
            r.push(' ');
        } else {
            r.push(c);
        }
        i += 1;
        proof {
            let now = text@.take(i as int);
            assert(now.drop_last() =~= text@.take(i - 1));
            assert(now.last() == c);
            assert(r@ =~= pad_newlines(now));
        }
    }
    assert(text@.take(i as int) =~= text@);
    r
}

/// Squeezes every wide blank line of the text.
pub fn squeeze(text: &Vec<char>) -> (r: Vec<char>)
    ensures
        r@ == squeeze_blank(text@),
{
    let n: usize = text.len();
    let mut r: Vec<char> = Vec::new();
    let mut i: usize = 0;
    assert(text@.skip(0) =~= text@);
    while i < n
        invariant
            n == text@.len(),
            i <= n,
            squeeze_blank(text@) == r@ + squeeze_blank(text@.skip(i as int)),
        decreases n - i,
    {
        let ghost rest = text@.skip(i as int);
        let ghost before = r@;
        if n - i >= 4 && text[i] == '\n' && text[i + 1] == ' ' && text[i + 2] == ' ' && text[i + 3]
            == '\n' {
            r.push('\n');
            r.push(' ');
            r.push('\n');
            i += 4;
            proof {
                assert(wide_blank_at(rest, 0));
                assert(rest.skip(4) =~= text@.skip(i as int));
                assert(r@ =~= before + seq!['\n', ' ', '\n']);
                assert(r@ + squeeze_blank(text@.skip(i as int)) =~= before + squeeze_blank(rest));
            }
        } else {
            r.push(text[i]);
            i += 1;
            proof {
                assert(!wide_blank_at(rest, 0));
                assert(rest.skip(1) =~= text@.skip(i as int));
                assert(r@ =~= before + seq![rest[0]]);
                assert(r@ + squeeze_blank(text@.skip(i as int)) =~= before + squeeze_blank(rest));
            }
        }
    }
    assert(r@ + Seq::<char>::empty() =~= r@);
    r
}

/// Cuts the text at every occurrence of the separator.
pub fn split(text: &Vec<char>, sep: char) -> (r: Vec<Vec<char>>)
    ensures
        tokens_view(r@) == split_on(text@, sep),
{
    let mut done: Vec<Vec<char>> = Vec::new();
    let mut current: Vec<char> = Vec::new();
    let mut i: usize = 0;
    assert(tokens_view(done@).push(current@) =~= split_on(text@.take(0), sep));
    while i < text.len()
        invariant
            i <= text@.len(),
            tokens_view(done@).push(current@) == split_on(text@.take(i as int), sep),
        decreases text@.len() - i,
    {
        let ghost before = split_on(text@.take(i as int), sep);
        let ghost done_before = tokens_view(done@);
        let ghost current_before = current@;
        let c = text[i];
        if c == sep {
            done.push(current);
            current = Vec::new();
            assert(tokens_view(done@) =~= done_before.push(current_before));
        } else {
            current.push(c);
        }
        i += 1;
        proof {
            let now = text@.take(i as int);
            assert(now.drop_last() =~= text@.take(i - 1));
            assert(now.last() == c);
            assert(before.drop_last() =~= done_before);
            assert(before.last() == current_before);
            assert(tokens_view(done@).push(current@) =~= split_on(now, sep));
        }
    }
    assert(text@.take(i as int) =~= text@);
    let ghost done_before = tokens_view(done@);
    let ghost last = current@;
    done.push(current);
    assert(tokens_view(done@) =~= done_before.push(last));
    done
}

/// The tokens of a stub generator.
pub fn tokenize(text: &str) -> (r: Vec<Vec<char>>)
    ensures
        tokens_view(r@) == tokens_of(text@),
{
    let chars = crate::text::chars_of(text);
    let padded = pad(&chars);
    let squeezed = squeeze(&padded);
    split(&squeezed, ' ')
}

} // verus!
