//! The storage format: one description per line, each line ended by a line
//! feed.

use vstd::prelude::*;
use vstd::std_specs::iter::IteratorSpec;
use vstd::string::*;
use vstd::utf8::encode_utf8_decode_utf8;

verus! {

/// The descriptions held by a vector of strings, in order.
pub open spec fn descriptions_of(v: Seq<String>) -> Seq<Seq<char>> {
    Seq::new(v.len(), |i: int| v[i]@)
}

/// Whether the first line of `text` ends just before place `k`: at the first
/// line feed, or at the end of the text where there is none.
pub open spec fn is_line_end(text: Seq<char>, k: int) -> bool {
    &&& 0 <= k <= text.len()
    &&& k < text.len() ==> text[k] == '\n'
    &&& forall|j: int| 0 <= j < k ==> text[j] != '\n'
}

/// The length of the first line of `text`, its terminator not counted.
pub open spec fn line_end(text: Seq<char>) -> int {
    choose|k: int| is_line_end(text, k)
}

/// A line as it is stored in the list: a carriage return that stood directly
/// before the line feed belongs to the terminator.
pub open spec fn strip_cr(line: Seq<char>) -> Seq<char> {
    if line.len() > 0 && line.last() == '\r' {
        line.drop_last()
    } else {
        line
    }
}

/// The lines of a text, terminators stripped. A line ends with a line feed or
/// with a carriage return and a line feed; the last line need not be ended.
/// The empty text has no lines.
pub open spec fn lines_of(text: Seq<char>) -> Seq<Seq<char>>
    decreases text.len(),
{
    let k = line_end(text);
    if text.len() == 0 {
        Seq::empty()
    } else if 0 <= k < text.len() {
        seq![strip_cr(text.take(k))] + lines_of(text.skip(k + 1))
    } else {
        seq![text]
    }
}

/// Every line followed by a line feed, one after the other.
pub open spec fn terminated(lines: Seq<Seq<char>>) -> Seq<char>
    decreases lines.len(),
{
    if lines.len() == 0 {
        Seq::empty()
    } else {
        lines[0] + seq!['\n'] + terminated(lines.drop_first())
    }
}

/// The text stored for a list: the descriptions joined by line feeds, and one
/// line feed after the last. The empty list is stored as a single line feed.
pub open spec fn text_of(lines: Seq<Seq<char>>) -> Seq<char> {
    if lines.len() == 0 {
        seq!['\n']
    } else {
        terminated(lines)
    }
}

/// A text made of lines that are each ended by a single line feed, none by a
/// carriage return and a line feed, and at least one line.
pub open spec fn is_stored_text(text: Seq<char>) -> bool {
    &&& text.len() > 0
    &&& text.last() == '\n'
    &&& forall|i: int| 0 < i < text.len() && #[trigger] text[i] == '\n' ==> text[i - 1] != '\r'
}

/// The first line of a text ends where `is_line_end` says.
pub proof fn lemma_line_end(text: Seq<char>, k: int)
    requires
        is_line_end(text, k),
    ensures
        line_end(text) == k,
{
    let c = line_end(text);
    assert(is_line_end(text, c));
    if c < k {
        assert(text[c] == '\n');
    } else if k < c {
        assert(text[k] == '\n');
    }
}

/// Every text has a first line.
pub proof fn lemma_line_end_exists(text: Seq<char>)
    ensures
        is_line_end(text, line_end(text)),
    decreases text.len(),
{
    if text.len() == 0 || text[0] == '\n' {
        assert(is_line_end(text, 0));
    } else {
        let rest = text.drop_first();
        lemma_line_end_exists(rest);
        let k = line_end(rest);
        assert forall|j: int| 0 <= j < k + 1 implies text[j] != '\n' by {
            if j > 0 {
                assert(text[j] == rest[j - 1]);
            }
        }
        assert(is_line_end(text, k + 1));
    }
}

/// Reading a stored text and storing the list again gives the same text,
/// character for character.
pub proof fn lemma_load_then_save(text: Seq<char>)
    requires
        is_stored_text(text),
    ensures
        text_of(lines_of(text)) == text,
    decreases text.len(),
{
    lemma_line_end_exists(text);
    let k = line_end(text);
    let first = text.take(k);
    let rest = text.skip(k + 1);
    assert(strip_cr(first) == first);
    let lines = lines_of(text);
    assert(lines == seq![first] + lines_of(rest));
    assert(lines.drop_first() =~= lines_of(rest));
    if rest.len() > 0 {
        assert(is_stored_text(rest)) by {
            assert(rest.last() == text.last());
            assert forall|i: int| 0 < i < rest.len() && #[trigger] rest[i] == '\n' implies rest[i
                - 1] != '\r' by {
                assert(text[i + k + 1] == '\n');
            }
        }
        lemma_load_then_save(rest);
        assert(lines_of(rest).len() > 0);
        assert(terminated(lines_of(rest)) == rest);
    } else {
        assert(terminated(lines_of(rest)) =~= rest);
    }
    assert(terminated(lines) == first + seq!['\n'] + terminated(lines_of(rest)));
    assert(first + seq!['\n'] + rest =~= text);
}

/// A description that the format can hold: one without a line feed, and
/// without a carriage return at its end.
pub open spec fn is_storable(line: Seq<char>) -> bool {
    &&& !line.contains('\n')
    &&& line.len() > 0 ==> line.last() != '\r'
}

/// Storing a list and reading the text again gives the same list, where the
/// list is not empty and every description is one that the format can hold.
pub proof fn lemma_save_then_load(lines: Seq<Seq<char>>)
    requires
        lines.len() > 0,
        forall|i: int| 0 <= i < lines.len() ==> is_storable(#[trigger] lines[i]),
    ensures
        lines_of(text_of(lines)) == lines,
    decreases lines.len(),
{
    let first = lines[0];
    let others = lines.drop_first();
    let text = terminated(lines);
    let k = first.len() as int;
    assert(text == first + seq!['\n'] + terminated(others));
    assert forall|j: int| 0 <= j < k implies text[j] != '\n' by {
        assert(first.contains(text[j]));
    }
    lemma_line_end(text, k);
    assert(text.take(k) =~= first);
    assert(text.skip(k + 1) =~= terminated(others));
    if others.len() > 0 {
        assert forall|i: int| 0 <= i < others.len() implies is_storable(#[trigger] others[i]) by {
            assert(others[i] == lines[i + 1]);
        }
        lemma_save_then_load(others);
    }
    assert(lines_of(terminated(others)) =~= others);
    assert(lines_of(text) =~= seq![first] + others);
    assert(seq![first] + others =~= lines);
}

/// The format cannot tell the empty list from the list of one empty
/// description: both are stored as a single line feed, which reads as the
/// latter. Only the empty text reads as the empty list.
pub proof fn lemma_empty_list_is_stored_as_one_blank()
    ensures
        text_of(Seq::empty()) == text_of(seq![Seq::<char>::empty()]),
        lines_of(text_of(Seq::empty())) == seq![Seq::<char>::empty()],
        lines_of(Seq::empty()) == Seq::<Seq<char>>::empty(),
{
    let blank = seq![Seq::<char>::empty()];
    assert(terminated(blank.drop_first()) =~= Seq::<char>::empty());
    assert(text_of(blank) =~= seq!['\n']);
    assert(is_storable(blank[0]));
    lemma_save_then_load(blank);
}

/// Whether two strings are the same, character for character.
pub fn same_text(a: &str, b: &str) -> (same: bool)
    ensures
        same == (a@ == b@),
{
    let x = a.as_bytes();
    let y = b.as_bytes();
    if x.len() != y.len() {
        return false;
    }
    let mut i: usize = 0;
    while i < x.len()
        invariant
            i <= x.len(),
            x.len() == y.len(),
            a@ == b@ ==> x@ == y@,
            forall|j: int| 0 <= j < i ==> x@[j] == y@[j],
        decreases x.len() - i,
    {
        if x[i] != y[i] {
            return false;
        }
        i += 1;
    }
    proof {
        assert(x@ =~= y@);
        encode_utf8_decode_utf8(a@);
        encode_utf8_decode_utf8(b@);
    }
    true
}

/// Splits a text into its lines.
pub fn split_lines(text: &str) -> (lines: Vec<String>)
    ensures
        descriptions_of(lines@) == lines_of(text@),
{
    broadcast use {axiom_spec_iter, next_postcondition};

    let n = text.unicode_len();
    let mut lines: Vec<String> = Vec::new();
    let mut chars = text.chars();
    let mut start: usize = 0;
    let mut i: usize = 0;
    let mut after_cr = false;
    proof {
        assert(text@.skip(0) =~= text@);
        assert(descriptions_of(lines@) + lines_of(text@) =~= lines_of(text@));
    }
    loop
        invariant
            n == text@.len(),
            start <= i <= n,
            chars.remaining() == text@.skip(i as int),
            after_cr == (i > start && text@[i - 1] == '\r'),
            forall|j: int| start <= j < i ==> text@[j] != '\n',
            lines_of(text@) == descriptions_of(lines@) + lines_of(text@.skip(start as int)),
        ensures
            i == n,
        decreases n - i,
    {
        let ghost before = chars;
        let c = match chars.next() {
            Some(c) => c,
            None => break,
        };
        proof {
            assert(before.remaining().len() > 0);
            assert(c == text@[i as int]);
            assert(text@.skip(i as int).drop_first() =~= text@.skip(i as int + 1));
        }
        if c == '\n' {
            let end = if after_cr {
                i - 1
            } else {
                i
            };
            let line = text.substring_char(start, end).to_owned();
            proof {
                let rest = text@.skip(start as int);
                let k = i - start;
                lemma_line_end(rest, k);
                assert(rest.take(k) =~= text@.subrange(start as int, i as int));
                assert(line@ =~= strip_cr(rest.take(k)));
                assert(rest.skip(k + 1) =~= text@.skip(i as int + 1));
                assert(descriptions_of(lines@.push(line)) =~= descriptions_of(lines@) + seq![
                    line@,
                ]);
            }
            lines.push(line);
            start = i + 1;
        }
        after_cr = c == '\r';
        i += 1;
    }
    if start < n {
        let line = text.substring_char(start, n).to_owned();
        proof {
            let rest = text@.skip(start as int);
            lemma_line_end(rest, rest.len() as int);
            assert(line@ =~= rest);
            assert(descriptions_of(lines@.push(line)) =~= descriptions_of(lines@) + seq![line@]);
        }
        lines.push(line);
    } else {
        assert(descriptions_of(lines@) + Seq::<Seq<char>>::empty() =~= descriptions_of(lines@));
    }
    lines
}

/// Writes out every line followed by a line feed: the empty text for no
/// lines.
pub fn terminate_lines(lines: &Vec<String>) -> (text: String)
    ensures
        text@ == terminated(descriptions_of(lines@)),
{
    let ghost all = descriptions_of(lines@);
    let mut text = String::new();
    let mut i: usize = 0;
    proof {
        assert(all.skip(0) =~= all);
        assert(text@ + terminated(all) =~= terminated(all));
    }
    while i < lines.len()
        invariant
            i <= lines.len(),
            all == descriptions_of(lines@),
            terminated(all) == text@ + terminated(all.skip(i as int)),
        decreases lines.len() - i,
    {
        proof {
            reveal_strlit("\n");
            assert(all.skip(i as int).drop_first() =~= all.skip(i as int + 1));
        }
        let ghost before = text@;
        text.append(lines[i].as_str());
        text.append("\n");
        assert(text@ =~= before + all[i as int] + seq!['\n']);
        i += 1;
    }
    assert(text@ + terminated(all.skip(i as int)) =~= text@);
    text
}

/// Writes out a list of lines as the text that is stored for it.
pub fn join_lines(lines: &Vec<String>) -> (text: String)
    ensures
        text@ == text_of(descriptions_of(lines@)),
{
    let mut text = terminate_lines(lines);
    if lines.len() == 0 {
        text.append("\n");
        proof {
            reveal_strlit("\n");
            assert(text@ =~= seq!['\n']);
        }
    }
    text
}

} // verus!
