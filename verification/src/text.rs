//! Text building blocks of the wire protocol: lines separated by a newline,
//! and unsigned decimal numbers.
//!
//! Everything is stated over `Seq<char>`, the view of `str` and `String`.

use vstd::prelude::*;

verus! {

/// `String::push` appends one character to the end of the string.
pub assume_specification[ String::push ](s: &mut String, c: char)
    ensures
        final(s)@ == old(s)@.push(c),
;

/// `str`'s `==` holds exactly when both hold the same characters.
pub assume_specification[ <str as PartialEq>::eq ](a: &str, b: &str) -> (same: bool)
    ensures
        same == (a@ == b@),
;

/// The lines of a text: the pieces between its newline characters, in order.
/// A text without a newline is one line; the empty text is one empty line.
pub open spec fn split_lines(s: Seq<char>) -> Seq<Seq<char>>
    decreases s.len(),
{
    if s.len() == 0 {
        seq![Seq::<char>::empty()]
    } else if s.last() == '\n' {
        split_lines(s.drop_last()).push(Seq::<char>::empty())
    } else {
        let before = split_lines(s.drop_last());
        before.drop_last().push(before.last().push(s.last()))
    }
}

/// The lines put together again, with one newline between neighbours.
pub open spec fn join_lines(lines: Seq<Seq<char>>) -> Seq<char>
    decreases lines.len(),
{
    if lines.len() == 0 {
        Seq::<char>::empty()
    } else if lines.len() == 1 {
        lines[0]
    } else {
        join_lines(lines.drop_last()).push('\n') + lines.last()
    }
}

/// No newline occurs in the text.
pub open spec fn single_line(s: Seq<char>) -> bool {
    forall|i: int| 0 <= i < s.len() ==> s[i] != '\n'
}

/// The texts that a list of strings holds, in order.
pub open spec fn views_of(strings: Seq<String>) -> Seq<Seq<char>> {
    strings.map_values(|s: String| s@)
}

/// Cuts a text into its lines.
pub fn lines_of(text: &str) -> (lines: Vec<String>)
    ensures
        views_of(lines@) == split_lines(text@),
{
    let mut done: Vec<String> = Vec::new();
    let mut current = String::new();
    for c in it: text.chars()
        invariant
            it.seq() == text@,
            views_of(done@).push(current@) == split_lines(text@.take(it.index())),
    {
        proof {
            let seen = text@.take(it.index() + 1);
            assert(seen.drop_last() == text@.take(it.index()));
            assert(seen.last() == c);
            assert(views_of(done@).push(current@).drop_last() == views_of(done@));
        }
        if c == '\n' {
            let ghost before = views_of(done@);
            done.push(current);
            current = String::new();
            assert(views_of(done@) == before.push(done@.last()@));
        } else {
            current.push(c);
        }
    }
    let ghost before = views_of(done@);
    done.push(current);
    proof {
        assert(views_of(done@) == before.push(done@.last()@));
        assert(text@.take(text@.len() as int) == text@);
    }
    done
}

/// Joins the strings from position `from` on, with one newline between
/// neighbours.
pub fn join_from(lines: &Vec<String>, from: usize) -> (text: String)
    requires
        from <= lines.len(),
    ensures
        text@ == join_lines(views_of(lines@).skip(from as int)),
{
    let ghost all = views_of(lines@);
    let mut out = String::new();
    let mut i: usize = from;
    while i < lines.len()
        invariant
            from <= i <= lines.len(),
            all == views_of(lines@),
            out@ == join_lines(all.subrange(from as int, i as int)),
        decreases lines.len() - i,
    {
        proof {
            let next = all.subrange(from as int, i + 1);
            assert(next.drop_last() == all.subrange(from as int, i as int));
            assert(next.last() == lines@[i as int]@);
        }
        if i > from {
            out.push('\n');
        }
        out.append(lines[i].as_str());
        i = i + 1;
    }
    proof {
        assert(all.subrange(from as int, lines.len() as int) == all.skip(from as int));
    }
    out
}

/// A text always has at least one line.
pub proof fn lemma_split_lines_nonempty(s: Seq<char>)
    ensures
        split_lines(s).len() >= 1,
    decreases s.len(),
{
    if s.len() > 0 {
        lemma_split_lines_nonempty(s.drop_last());
    }
}

/// A text without a newline is its own single line.
pub proof fn lemma_split_single_line(s: Seq<char>)
    requires
        single_line(s),
    ensures
        split_lines(s) == seq![s],
    decreases s.len(),
{
    if s.len() == 0 {
        assert(s == Seq::<char>::empty());
    } else {
        lemma_split_single_line(s.drop_last());
        let before = split_lines(s.drop_last());
        assert(before.drop_last().push(before.last().push(s.last())) == seq![s]) by {
            assert(before.last().push(s.last()) == s);
        }
    }
}

/// The lines of two texts with a newline between them are the lines of the
/// first, then the lines of the second.
pub proof fn lemma_split_concat(s: Seq<char>, t: Seq<char>)
    ensures
        split_lines(s.push('\n') + t) == split_lines(s) + split_lines(t),
    decreases t.len(),
{
    let whole = s.push('\n') + t;
    if t.len() == 0 {
        assert(whole == s.push('\n'));
        assert(whole.drop_last() == s);
        assert(split_lines(s).push(Seq::<char>::empty()) == split_lines(s) + split_lines(t));
    } else {
        let shorter = t.drop_last();
        lemma_split_concat(s, shorter);
        lemma_split_lines_nonempty(shorter);
        assert(whole.drop_last() == s.push('\n') + shorter);
        assert(whole.last() == t.last());
        let before = split_lines(whole.drop_last());
        let tail = split_lines(shorter);
        assert(before == split_lines(s) + tail);
        if t.last() == '\n' {
            assert(before.push(Seq::<char>::empty()) == split_lines(s) + tail.push(
                Seq::<char>::empty(),
            ));
        } else {
            assert(before.drop_last() == split_lines(s) + tail.drop_last());
            assert(before.last() == tail.last());
            assert(before.drop_last().push(before.last().push(t.last())) == split_lines(s)
                + tail.drop_last().push(tail.last().push(t.last())));
        }
    }
}

/// Splitting lines that were joined gives them back, where only the last one
/// may hold newlines: that one comes back as its own lines.
pub proof fn lemma_split_join_tail(heads: Seq<Seq<char>>, tail: Seq<char>)
    requires
        heads.len() >= 1,
        forall|k: int| 0 <= k < heads.len() ==> single_line(#[trigger] heads[k]),
    ensures
        split_lines(join_lines(heads.push(tail))) == heads + split_lines(tail),
{
    let all = heads.push(tail);
    assert(all.drop_last() == heads);
    assert(join_lines(all) == join_lines(heads).push('\n') + tail);
    lemma_split_concat(join_lines(heads), tail);
    lemma_split_join(heads);
}

/// Splitting undoes joining, where no line holds a newline.
pub proof fn lemma_split_join(lines: Seq<Seq<char>>)
    requires
        lines.len() >= 1,
        forall|k: int| 0 <= k < lines.len() ==> single_line(#[trigger] lines[k]),
    ensures
        split_lines(join_lines(lines)) == lines,
    decreases lines.len(),
{
    if lines.len() == 1 {
        lemma_split_single_line(lines[0]);
        assert(seq![lines[0]] == lines);
    } else {
        lemma_split_join(lines.drop_last());
        lemma_split_concat(join_lines(lines.drop_last()), lines.last());
        lemma_split_single_line(lines.last());
        assert(lines.drop_last() + seq![lines.last()] == lines);
    }
}

/// Joining undoes splitting.
pub proof fn lemma_join_split(s: Seq<char>)
    ensures
        join_lines(split_lines(s)) == s,
    decreases s.len(),
{
    if s.len() == 0 {
        assert(join_lines(seq![Seq::<char>::empty()]) == Seq::<char>::empty());
    } else {
        let rest = s.drop_last();
        let before = split_lines(rest);
        lemma_join_split(rest);
        lemma_split_lines_nonempty(rest);
        if s.last() == '\n' {
            let now = before.push(Seq::<char>::empty());
            assert(now.drop_last() == before);
            assert(join_lines(now) == join_lines(before).push('\n') + Seq::<char>::empty());
            assert(rest.push('\n') == s);
        } else {
            let now = before.drop_last().push(before.last().push(s.last()));
            assert(now.drop_last() == before.drop_last());
            assert(now.last() == before.last().push(s.last()));
            if before.len() == 1 {
                assert(before.last() == rest);
                assert(rest.push(s.last()) == s);
            } else {
                assert(join_lines(before) == join_lines(before.drop_last()).push('\n')
                    + before.last());
                assert(join_lines(now) == join_lines(before.drop_last()).push('\n') + now.last());
                assert(join_lines(now) == join_lines(before).push(s.last()));
                assert(rest.push(s.last()) == s);
            }
        }
    }
}

} // verus!
