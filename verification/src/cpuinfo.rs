//! Reading the feature list out of a processor description such as the one
//! that Linux keeps under `/proc/cpuinfo`.
//!
//! Every line that begins with `features` and holds a colon lists feature
//! names after that colon, separated by white space. The names of all such
//! lines, in the order in which they stand, are the result.

use crate::metadata::names_of;
use std::str::Chars;
use vstd::prelude::*;
use vstd::std_specs::iter::IteratorSpec;

verus! {

/// Characters in the word that opens a feature line.
pub const PREFIX_LEN: usize = 8;

/// The word that opens a feature line.
pub open spec fn prefix() -> Seq<char> {
    seq!['f', 'e', 'a', 't', 'u', 'r', 'e', 's']
}

/// White space, as Unicode defines it.
pub open spec fn is_space(c: char) -> bool {
    let u = c as u32;
    (0x09 <= u <= 0x0D) || u == 0x20 || u == 0x85 || u == 0xA0 || u == 0x1680 || (0x2000 <= u
        <= 0x200A) || u == 0x2028 || u == 0x2029 || u == 0x202F || u == 0x205F || u == 0x3000
}

/// The lines of a text: what stands between line feeds. A text of `n` line
/// feeds has `n + 1` lines, some of them perhaps empty.
pub open spec fn lines(text: Seq<char>) -> Seq<Seq<char>>
    decreases text.len(),
{
    if text.len() == 0 {
        seq![Seq::empty()]
    } else {
        let before = lines(text.drop_last());
        if text.last() == '\n' {
            before.push(Seq::empty())
        } else {
            before.drop_last().push(before.last().push(text.last()))
        }
    }
}

/// The words of a text: its longest runs of characters that are not white
/// space, from left to right.
pub open spec fn words(text: Seq<char>) -> Seq<Seq<char>>
    decreases text.len(),
{
    if text.len() == 0 {
        Seq::empty()
    } else {
        let front = text.drop_last();
        let before = words(front);
        if is_space(text.last()) {
            before
        } else if front.len() > 0 && !is_space(front.last()) {
            before.drop_last().push(before.last().push(text.last()))
        } else {
            before.push(seq![text.last()])
        }
    }
}

/// Place of the first colon in a text, or the length of the text where it
/// holds none.
pub open spec fn colon_at(text: Seq<char>) -> int
    decreases text.len(),
{
    if text.len() == 0 || text[0] == ':' {
        0
    } else {
        1 + colon_at(text.drop_first())
    }
}

/// The line begins with the word `features`.
pub open spec fn is_feature_line(line: Seq<char>) -> bool {
    line.len() >= PREFIX_LEN && line.take(PREFIX_LEN as int) == prefix()
}

/// The feature names that one line lists: the words behind the first colon
/// that follows the opening word, and none where the line does not open with
/// that word or holds no colon behind it.
pub open spec fn line_features(line: Seq<char>) -> Seq<Seq<char>> {
    let rest = line.skip(PREFIX_LEN as int);
    if is_feature_line(line) && colon_at(rest) < rest.len() {
        words(rest.skip(colon_at(rest) + 1))
    } else {
        Seq::empty()
    }
}

/// The feature names of the given lines, line after line.
pub open spec fn features_of(all: Seq<Seq<char>>) -> Seq<Seq<char>>
    decreases all.len(),
{
    if all.len() == 0 {
        Seq::empty()
    } else {
        features_of(all.drop_last()) + line_features(all.last())
    }
}

/// The feature names that a processor description lists.
pub open spec fn cpuinfo_features_spec(text: Seq<char>) -> Seq<Seq<char>> {
    features_of(lines(text))
}

/// The texts of a list of lines.
pub open spec fn lines_of(list: Seq<Vec<char>>) -> Seq<Seq<char>> {
    Seq::new(list.len(), |i: int| list[i]@)
}

/// A text has at least one line, and no line holds a line feed.
pub proof fn lemma_lines_shape(text: Seq<char>)
    ensures
        lines(text).len() >= 1,
        forall|k: int, i: int|
            0 <= k < lines(text).len() && 0 <= i < lines(text)[k].len() ==> #[trigger] lines(
                text,
            )[k][i] != '\n',
    decreases text.len(),
{
    if text.len() > 0 {
        let before = lines(text.drop_last());
        lemma_lines_shape(text.drop_last());
        assert forall|k: int, i: int|
            0 <= k < lines(text).len() && 0 <= i < lines(text)[k].len() implies #[trigger] lines(
            text,
        )[k][i] != '\n' by {
            if k < before.len() - 1 {
                assert(lines(text)[k] == before[k]);
            } else if text.last() != '\n' && i < before.last().len() {
                assert(lines(text)[k][i] == before[before.len() - 1][i]);
            }
        }
    }
}

/// The first colon of a text stands where `colon_at` says, and nowhere
/// before.
pub proof fn lemma_colon_at(text: Seq<char>)
    ensures
        0 <= colon_at(text) <= text.len(),
        colon_at(text) < text.len() ==> text[colon_at(text)] == ':',
        forall|i: int| 0 <= i < colon_at(text) ==> text[i] != ':',
    decreases text.len(),
{
    if text.len() > 0 && text[0] != ':' {
        let tail = text.drop_first();
        lemma_colon_at(tail);
        assert forall|i: int| 0 <= i < colon_at(text) implies text[i] != ':' by {
            if i > 0 {
                assert(tail[i - 1] == text[i]);
            }
        }
    }
}

/// A word is never empty and holds no white space.
pub proof fn lemma_words_are_solid(text: Seq<char>, k: int, i: int)
    requires
        0 <= k < words(text).len(),
        0 <= i < words(text)[k].len(),
    ensures
        words(text)[k].len() > 0,
        !is_space(words(text)[k][i]),
    decreases text.len(),
{
    lemma_words_shape(text);
    if text.len() > 0 {
        let front = text.drop_last();
        let before = words(front);
        lemma_words_shape(front);
        if is_space(text.last()) {
            lemma_words_are_solid(front, k, i);
        } else if front.len() > 0 && !is_space(front.last()) {
            if k < before.len() - 1 {
                lemma_words_are_solid(front, k, i);
            } else if i < before.last().len() {
                lemma_words_are_solid(front, k, i);
            }
        } else {
            if k < before.len() {
                lemma_words_are_solid(front, k, i);
            }
        }
    }
}

/// A text that ends in a character that is not white space has a last word,
/// and every word has a character.
proof fn lemma_words_shape(text: Seq<char>)
    ensures
        text.len() > 0 && !is_space(text.last()) ==> words(text).len() > 0,
        forall|k: int| 0 <= k < words(text).len() ==> (#[trigger] words(text)[k]).len() > 0,
    decreases text.len(),
{
    if text.len() > 0 {
        lemma_words_shape(text.drop_last());
    }
}

/// Tells whether `c` is white space.
pub fn space(c: char) -> (yes: bool)
    ensures
        yes == is_space(c),
{
    let u: u32 = c as u32;
    (0x09 <= u && u <= 0x0D) || u == 0x20 || u == 0x85 || u == 0xA0 || u == 0x1680 || (0x2000 <= u
        && u <= 0x200A) || u == 0x2028 || u == 0x2029 || u == 0x202F || u == 0x205F || u == 0x3000
}

/// The characters of a text, one by one.
pub fn chars_of(text: &str) -> (chars: Vec<char>)
    ensures
        chars@ == text@,
{
    let mut rest: Chars<'_> = text.chars();
    let mut chars: Vec<char> = Vec::new();
    loop
        invariant
            rest.obeys_prophetic_iter_laws(),
            rest.decrease() is Some,
            chars@ + rest.remaining() == text@,
        ensures
            chars@ == text@,
        decreases rest.decrease()->0,
    {
        match rest.next() {
            Some(c) => {
                chars.push(c);
                assert(chars@ + rest.remaining() =~= text@);
            },
            None => {
                assert(chars@ =~= text@);
                break ;
            },
        }
    }
    chars
}

/// Cuts a text into its lines.
pub fn split_lines(text: &Vec<char>) -> (all: Vec<Vec<char>>)
    ensures
        lines_of(all@) == lines(text@),
{
    let mut done: Vec<Vec<char>> = Vec::new();
    let mut current: Vec<char> = Vec::new();
    let mut i: usize = 0;
    assert(text@.take(0) =~= Seq::<char>::empty());
    assert(lines(text@.take(0)) =~= lines_of(done@).push(current@));
    while i < text.len()
        invariant
            i <= text.len(),
            lines(text@.take(i as int)) == lines_of(done@).push(current@),
        decreases text.len() - i,
    {
        let c: char = text[i];
        let ghost before = lines(text@.take(i as int));
        proof {
            let next = text@.take(i + 1);
            assert(next.drop_last() =~= text@.take(i as int));
            assert(next.last() == c);
            assert(before.drop_last() =~= lines_of(done@));
            assert(before.last() == current@);
        }
        if c == '\n' {
            done.push(current);
            current = Vec::new();
            assert(lines(text@.take(i + 1)) =~= lines_of(done@).push(current@));
        } else {
            current.push(c);
            assert(lines(text@.take(i + 1)) =~= lines_of(done@).push(current@));
        }
        i += 1;
    }
    assert(text@.take(text.len() as int) =~= text@);
    let ghost finished = lines_of(done@).push(current@);
    done.push(current);
    assert(lines_of(done@) =~= finished);
    done
}

/// Cuts what stands in `text` from place `from` on into its words.
pub fn split_words(text: &Vec<char>, from: usize) -> (found: Vec<String>)
    requires
        from <= text.len(),
    ensures
        names_of(found@) == words(text@.skip(from as int)),
{
    let ghost tail = text@.skip(from as int);
    let mut done: Vec<String> = Vec::new();
    let mut current: String = String::new();
    let mut i: usize = from;
    assert(tail.take(0) =~= Seq::<char>::empty());
    assert(words(tail.take(0)) =~= names_of(done@));
    while i < text.len()
        invariant
            from <= i <= text.len(),
            tail == text@.skip(from as int),
            current@.len() > 0 <==> (i > from && !is_space(text@[i - 1])),
            words(tail.take(i - from)) == if current@.len() > 0 {
                names_of(done@).push(current@)
            } else {
                names_of(done@)
            },
        decreases text.len() - i,
    {
        let c: char = text[i];
        proof {
            let seen = tail.take(i - from);
            let next = tail.take(i + 1 - from);
            assert(next.drop_last() =~= seen);
            assert(next.last() == c);
            if seen.len() > 0 {
                assert(seen.last() == text@[i - 1]);
            }
            if current@.len() > 0 {
                assert(names_of(done@).push(current@).drop_last() =~= names_of(done@));
            }
        }
        if space(c) {
            if !current.as_str().is_empty() {
                let ghost word = current@;
                let ghost kept = names_of(done@);
                done.push(current);
                current = String::new();
                assert(names_of(done@) =~= kept.push(word));
            }
        } else {
            let ghost word = current@;
            current.push(c);
            proof {
                let next = tail.take(i + 1 - from);
                if word.len() > 0 {
                    assert(names_of(done@).push(word).last() == word);
                    assert(words(next) =~= names_of(done@).push(current@));
                } else {
                    assert(current@ =~= seq![c]);
                    assert(words(next) =~= names_of(done@).push(current@));
                }
            }
        }
        i += 1;
    }
    assert(tail.take(text.len() - from) =~= tail);
    if !current.as_str().is_empty() {
        let ghost word = current@;
        let ghost kept = names_of(done@);
        done.push(current);
        assert(names_of(done@) =~= kept.push(word));
    }
    done
}

/// Tells whether the line begins with the word `features`.
pub fn opens_with_prefix(line: &Vec<char>) -> (yes: bool)
    ensures
        yes == is_feature_line(line@),
{
    if line.len() < PREFIX_LEN {
        return false;
    }
    let yes = line[0] == 'f' && line[1] == 'e' && line[2] == 'a' && line[3] == 't' && line[4]
        == 'u' && line[5] == 'r' && line[6] == 'e' && line[7] == 's';
    proof {
        let head = line@.take(PREFIX_LEN as int);
        if yes {
            assert(head =~= prefix());
        } else {
            assert(head[0] == line@[0] && head[1] == line@[1] && head[2] == line@[2] && head[3]
                == line@[3] && head[4] == line@[4] && head[5] == line@[5] && head[6] == line@[6]
                && head[7] == line@[7]);
        }
    }
    yes
}

/// The feature names that one line lists.
pub fn features_in_line(line: &Vec<char>) -> (found: Vec<String>)
    ensures
        names_of(found@) == line_features(line@),
{
    if !opens_with_prefix(line) {
        return Vec::new();
    }
    let ghost rest = line@.skip(PREFIX_LEN as int);
    let mut i: usize = PREFIX_LEN;
    assert(rest.skip(0) =~= rest);
    while i < line.len() && line[i] != ':'
        invariant
            PREFIX_LEN <= i <= line.len(),
            rest == line@.skip(PREFIX_LEN as int),
            colon_at(rest) == (i - PREFIX_LEN) + colon_at(rest.skip(i - PREFIX_LEN)),
        decreases line.len() - i,
    {
        proof {
            let here = rest.skip(i - PREFIX_LEN);
            assert(here[0] == line@[i as int]);
            assert(here.drop_first() =~= rest.skip(i + 1 - PREFIX_LEN));
        }
        i += 1;
    }
    proof {
        let here = rest.skip(i - PREFIX_LEN);
        if i < line.len() {
            assert(here[0] == line@[i as int]);
        }
    }
    if i == line.len() {
        return Vec::new();
    }
    proof {
        assert(rest.skip(i - PREFIX_LEN + 1) =~= line@.skip(i + 1));
    }
    split_words(line, i + 1)
}

/// The feature names that a processor description lists, in the order in
/// which they stand, repeats included.
pub fn cpuinfo_features(text: &str) -> (found: Vec<String>)
    ensures
        names_of(found@) == cpuinfo_features_spec(text@),
{
    let chars = chars_of(text);
    let all = split_lines(&chars);
    let mut found: Vec<String> = Vec::new();
    let mut i: usize = 0;
    assert(lines_of(all@).take(0) =~= Seq::<Seq<char>>::empty());
    assert(names_of(found@) =~= features_of(lines_of(all@).take(0)));
    while i < all.len()
        invariant
            i <= all.len(),
            names_of(found@) == features_of(lines_of(all@).take(i as int)),
        decreases all.len() - i,
    {
        let mut here = features_in_line(&all[i]);
        let ghost kept = names_of(found@);
        let ghost added = names_of(here@);
        found.append(&mut here);
        proof {
            let next = lines_of(all@).take(i + 1);
            assert(next.drop_last() =~= lines_of(all@).take(i as int));
            assert(next.last() == all@[i as int]@);
            assert(names_of(found@) =~= kept + added);
        }
        i += 1;
    }
    assert(lines_of(all@).take(all.len() as int) =~= lines_of(all@));
    found
}

} // verus!
