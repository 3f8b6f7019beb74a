//! Splitting text into words and segments, and joining them again.
use crate::text::{chars_of, is_white_space, white_space};
use vstd::prelude::*;

verus! {

/// The texts that a list of strings holds.
pub open spec fn texts(list: Seq<String>) -> Seq<Seq<char>> {
    list.map_values(|t: String| t@)
}

/// The list with one more character at the end of its last text.
pub open spec fn extend_last(list: Seq<Seq<char>>, c: char) -> Seq<Seq<char>> {
    list.update(list.len() - 1, list.last().push(c))
}

/// The maximal runs of characters that are not white space, in order.
pub open spec fn words(s: Seq<char>) -> Seq<Seq<char>>
    decreases s.len(),
{
    if s.len() == 0 {
        Seq::empty()
    } else if is_white_space(s.last()) {
        words(s.drop_last())
    } else if in_word(s.drop_last()) {
        extend_last(words(s.drop_last()), s.last())
    } else {
        words(s.drop_last()).push(seq![s.last()])
    }
}

/// Whether a character that follows `s` would continue a word.
pub open spec fn in_word(s: Seq<char>) -> bool {
    s.len() > 0 && !is_white_space(s.last())
}

/// The pieces between the separators, in order; text without any is one piece.
pub open spec fn segments(s: Seq<char>, separator: char) -> Seq<Seq<char>>
    decreases s.len(),
{
    if s.len() == 0 {
        seq![Seq::empty()]
    } else if s.last() == separator {
        segments(s.drop_last(), separator).push(Seq::empty())
    } else {
        extend_last(segments(s.drop_last(), separator), s.last())
    }
}

/// The parts one after the other, with the separator between neighbours.
pub open spec fn joined(parts: Seq<Seq<char>>, separator: Seq<char>) -> Seq<char>
    decreases parts.len(),
{
    if parts.len() == 0 {
        Seq::empty()
    } else if parts.len() == 1 {
        parts[0]
    } else {
        joined(parts.drop_last(), separator) + separator + parts.last()
    }
}

/// The text with each run of white space made one space, and none at its ends.
pub open spec fn collapsed(s: Seq<char>) -> Seq<char> {
    joined(words(s), seq![' '])
}

/// Whether the text is a word: not empty and without white space.
pub open spec fn is_word(w: Seq<char>) -> bool {
    &&& w.len() > 0
    &&& forall|i: int| 0 <= i < w.len() ==> !is_white_space(#[trigger] w[i])
}

/// The words of the text, in order.
pub fn words_of(text: &str) -> (list: Vec<String>)
    ensures
        texts(list@) == words(text@),
{
    let chars = chars_of(text);
    let mut list: Vec<String> = Vec::new();
    let mut current = String::new();
    let mut i: usize = 0;
    while i < chars.len()
        invariant
            i <= chars@.len(),
            in_word(chars@.take(i as int)) <==> current@.len() > 0,
            words(chars@.take(i as int)) == (if current@.len() > 0 {
                texts(list@).push(current@)
            } else {
                texts(list@)
            }),
        decreases chars@.len() - i,
    {
        let c: char = chars[i];
        let ghost before = chars@.take(i as int);
        let ghost done = texts(list@);
        let ghost open = current@;
        i += 1;
        proof {
            assert(chars@.take(i as int).drop_last() =~= before);
        }
        if white_space(c) {
            if !current.as_str().is_empty() {
                list.push(current);
                current = String::new();
                proof {
                    assert(texts(list@) =~= done.push(open));
                }
            }
        } else {
            current.push(c);
            proof {
                if open.len() > 0 {
                    assert(extend_last(done.push(open), c) =~= done.push(open.push(c)));
                } else {
                    assert(open.push(c) =~= seq![c]);
                }
            }
        }
    }
    proof {
        assert(chars@.take(chars@.len() as int) =~= chars@);
    }
    let ghost done = texts(list@);
    let ghost open = current@;
    if !current.as_str().is_empty() {
        list.push(current);
        proof {
            assert(texts(list@) =~= done.push(open));
        }
    }
    list
}

/// The pieces of the text between the separators, in order.
pub fn segments_of(text: &str, separator: char) -> (list: Vec<String>)
    ensures
        texts(list@) == segments(text@, separator),
{
    let chars = chars_of(text);
    let mut list: Vec<String> = Vec::new();
    let mut current = String::new();
    let mut i: usize = 0;
    proof {
        assert(segments(chars@.take(0), separator) =~= texts(list@).push(current@));
    }
    while i < chars.len()
        invariant
            i <= chars@.len(),
            segments(chars@.take(i as int), separator) == texts(list@).push(current@),
        decreases chars@.len() - i,
    {
        let c: char = chars[i];
        let ghost before = chars@.take(i as int);
        let ghost done = texts(list@);
        let ghost open = current@;
        i += 1;
        proof {
            assert(chars@.take(i as int).drop_last() =~= before);
        }
        if c == separator {
            list.push(current);
            current = String::new();
            proof {
                assert(texts(list@) =~= done.push(open));
                assert(current@ =~= Seq::<char>::empty());
            }
        } else {
            current.push(c);
            proof {
                assert(extend_last(done.push(open), c) =~= done.push(open.push(c)));
            }
        }
    }
    let ghost done = texts(list@);
    let ghost open = current@;
    list.push(current);
    proof {
        assert(chars@.take(chars@.len() as int) =~= chars@);
        assert(texts(list@) =~= done.push(open));
    }
    list
}

/// The parts joined with the separator between neighbours.
pub fn join_texts(parts: &Vec<String>, separator: &str) -> (text: String)
    ensures
        text@ == joined(texts(parts@), separator@),
{
    let mut text = String::new();
    let mut i: usize = 0;
    while i < parts.len()
        invariant
            i <= parts@.len(),
            text@ == joined(texts(parts@).take(i as int), separator@),
        decreases parts@.len() - i,
    {
        if i > 0 {
            text.append(separator);
        }
        text.append(parts[i].as_str());
        i += 1;
        proof {
            assert(texts(parts@).take(i as int).drop_last() =~= texts(parts@).take(i - 1));
            if i == 1 {
                assert(text@ =~= texts(parts@).take(1)[0]);
            }
        }
    }
    proof {
        assert(texts(parts@).take(parts@.len() as int) =~= texts(parts@));
    }
    text
}

/// The text with each run of white space made one space, and none at its ends.
pub fn collapse_whitespace(input: &str) -> (text: String)
    ensures
        text@ == collapsed(input@),
{
    let list = words_of(input);
    let text = join_texts(&list, " ");
    proof {
        reveal_strlit(" ");
        assert(" "@ =~= seq![' ']);
    }
    text
}

/// Every element of a list of words is a word.
pub proof fn words_are_words(s: Seq<char>)
    ensures
        forall|i: int| 0 <= i < words(s).len() ==> is_word(#[trigger] words(s)[i]),
        in_word(s) ==> words(s).len() > 0,
    decreases s.len(),
{
    if s.len() > 0 {
        let before = words(s.drop_last());
        words_are_words(s.drop_last());
        if !is_white_space(s.last()) {
            assert(is_word(seq![s.last()]));
            if in_word(s.drop_last()) {
                assert(is_word(before.last()));
                assert(is_word(before.last().push(s.last())));
            }
        }
    }
}

/// White space, then a word, adds that word to the words before it.
pub proof fn words_after_space(s: Seq<char>, space: char, w: Seq<char>)
    requires
        is_white_space(space),
        is_word(w),
    ensures
        words(s + seq![space] + w) == words(s).push(w),
    decreases w.len(),
{
    let t = s + seq![space] + w;
    assert(!is_white_space(w[w.len() - 1]));
    assert(t.last() == w.last());
    if w.len() == 1 {
        assert(t.drop_last() =~= s + seq![space]);
        assert((s + seq![space]).drop_last() =~= s);
        assert(words(s + seq![space]) == words(s));
        assert(w =~= seq![t.last()]);
    } else {
        let v = w.drop_last();
        assert(t.drop_last() =~= s + seq![space] + v);
        words_after_space(s, space, v);
        assert(is_word(v));
        assert(!is_white_space(v[v.len() - 1]));
        assert(t.drop_last().last() == v.last());
        assert(v.push(t.last()) =~= w);
        assert(extend_last(words(s).push(v), t.last()) =~= words(s).push(w));
    }
}

/// A word alone is its own only word.
pub proof fn words_of_word(w: Seq<char>)
    requires
        is_word(w),
    ensures
        words(w) == seq![w],
    decreases w.len(),
{
    assert(!is_white_space(w[w.len() - 1]));
    if w.len() == 1 {
        assert(w.drop_last() =~= Seq::<char>::empty());
        assert(w =~= seq![w.last()]);
        assert(words(w.drop_last()) =~= Seq::<Seq<char>>::empty());
        assert(words(w) =~= seq![w]);
    } else {
        let v = w.drop_last();
        assert(is_word(v));
        words_of_word(v);
        assert(!is_white_space(v[v.len() - 1]));
        assert(v.push(w.last()) =~= w);
        assert(extend_last(seq![v], w.last()) =~= seq![w]);
    }
}

/// Words joined by single spaces split into the same words again.
pub proof fn words_of_joined(list: Seq<Seq<char>>)
    requires
        forall|i: int| 0 <= i < list.len() ==> is_word(#[trigger] list[i]),
    ensures
        words(joined(list, seq![' '])) == list,
    decreases list.len(),
{
    if list.len() == 0 {
        assert(words(Seq::<char>::empty()) =~= list);
    } else if list.len() == 1 {
        words_of_word(list[0]);
        assert(seq![list[0]] =~= list);
    } else {
        words_of_joined(list.drop_last());
        words_after_space(joined(list.drop_last(), seq![' ']), ' ', list.last());
        assert(list.drop_last().push(list.last()) =~= list);
    }
}

/// Collapsing white space a second time changes nothing.
pub proof fn collapsing_is_idempotent(s: Seq<char>)
    ensures
        collapsed(collapsed(s)) == collapsed(s),
{
    words_are_words(s);
    words_of_joined(words(s));
}

} // verus!
