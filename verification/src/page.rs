//! What a command says: lines for the two streams of a terminal.

use vstd::prelude::*;

use crate::text::{
    cat2, cat4, chars_of, is_word, joined, law_a_text_without_white_space_is_a_word,
    law_words_are_words, law_words_part_at_white_space, pad, padded, pieces, repeat, repeated,
    string_of, texts, words, words_of,
};

verus! {

// ---------------------------------------------------------------------------
// Lines
// ---------------------------------------------------------------------------

/// One line, and the stream it goes to.
#[derive(Debug, PartialEq, Eq)]
pub enum Line {
    /// What was asked for.
    Out(String),
    /// What is said about it: refusals, failures and warnings.
    Aside(String),
}

pub enum LineView {
    Out(Seq<char>),
    Aside(Seq<char>),
}

impl DeepView for Line {
    type V = LineView;

    open spec fn deep_view(&self) -> LineView {
        match self {
            Line::Out(s) => LineView::Out(s@),
            Line::Aside(s) => LineView::Aside(s@),
        }
    }
}

/// The lines a command says, in order.
#[derive(Debug, PartialEq, Eq)]
pub struct Page {
    pub lines: Vec<Line>,
}

impl View for Page {
    type V = Seq<LineView>;

    open spec fn view(&self) -> Seq<LineView> {
        self.lines.deep_view()
    }
}

/// One line of what was asked for.
pub open spec fn said(text: Seq<char>) -> Seq<LineView> {
    seq![LineView::Out(text)]
}

/// One line about it.
pub open spec fn told(text: Seq<char>) -> Seq<LineView> {
    seq![LineView::Aside(text)]
}

pub open spec fn nothing() -> Seq<LineView> {
    Seq::empty()
}

/// A heading, underlined.
pub open spec fn heading_lines(text: Seq<char>) -> Seq<LineView> {
    said("\n"@ + text) + said(repeated('-', text.len()))
}

/// A value behind its label.
pub open spec fn field_line(label: Seq<char>, value: Seq<char>) -> Seq<LineView> {
    said("  "@ + padded(label, 22) + " "@ + value)
}

/// A line aligned under a value.
pub open spec fn more_line(value: Seq<char>) -> Seq<LineView> {
    field_line(""@, value)
}

pub open spec fn bullet_line(text: Seq<char>) -> Seq<LineView> {
    said("  - "@ + text)
}

pub open spec fn warning_line(text: Seq<char>) -> Seq<LineView> {
    told("warning: "@ + text)
}

/// Each text as a bullet.
pub open spec fn bullet_lines(items: Seq<Seq<char>>) -> Seq<LineView>
    decreases items.len(),
{
    if items.len() == 0 {
        nothing()
    } else {
        bullet_lines(items.drop_last()) + bullet_line(items.last())
    }
}

/// Texts under one label: the first behind it, the others aligned under it.
pub open spec fn labelled_lines(label: Seq<char>, items: Seq<Seq<char>>) -> Seq<LineView>
    decreases items.len(),
{
    if items.len() == 0 {
        nothing()
    } else if items.len() == 1 {
        field_line(label, items[0])
    } else {
        labelled_lines(label, items.drop_last()) + more_line(items.last())
    }
}

/// Recovery instructions, said with every refusal and failure.
pub const RECOVERY_NOTE: &'static str = "If a screen goes blank or stops responding:\n  - Use the monitor's own buttons: open its on-screen menu and pick the input\n    by hand. This always works and needs no computer at all.\n  - A laptop's built-in panel stays available, so the desktop falls back to it\n    if the external displays disappear.\n  - Run `desktop-switcher set <monitor> 0xNN` again once a screen is back. An\n    input is set absolutely, so repeating it is safe.";

pub open spec fn recovery_lines() -> Seq<LineView> {
    told("\n"@ + RECOVERY_NOTE@)
}

impl Page {
    pub fn new() -> (r: Self)
        ensures
            r@ == nothing(),
    {
        let lines: Vec<Line> = Vec::new();
        assert(lines.deep_view() =~= nothing());
        Page { lines }
    }

    pub fn say(&mut self, text: String)
        ensures
            final(self)@ == old(self)@ + said(text@),
    {
        self.lines.push(Line::Out(text));
        assert(self@ =~= old(self)@ + said(text@));
    }

    pub fn tell(&mut self, text: String)
        ensures
            final(self)@ == old(self)@ + told(text@),
    {
        self.lines.push(Line::Aside(text));
        assert(self@ =~= old(self)@ + told(text@));
    }

    /// A line that is known beforehand.
    pub fn put(&mut self, text: &str)
        ensures
            final(self)@ == old(self)@ + said(text@),
    {
        self.say(text.to_owned());
    }

    pub fn heading(&mut self, text: &str)
        ensures
            final(self)@ == old(self)@ + heading_lines(text@),
    {
        self.say(cat2("\n", text));
        self.say(repeat('-', text.unicode_len()));
    }

    pub fn field(&mut self, label: &str, value: &str)
        ensures
            final(self)@ == old(self)@ + field_line(label@, value@),
    {
        self.say(cat4("  ", pad(label, 22).as_str(), " ", value));
    }

    /// A continuation line aligned under a [`Page::field`] value.
    pub fn field_cont(&mut self, value: &str)
        ensures
            final(self)@ == old(self)@ + more_line(value@),
    {
        self.field("", value);
    }

    pub fn bullet(&mut self, text: &str)
        ensures
            final(self)@ == old(self)@ + bullet_line(text@),
    {
        self.say(cat2("  - ", text));
    }

    pub fn warn(&mut self, text: &str)
        ensures
            final(self)@ == old(self)@ + warning_line(text@),
    {
        self.tell(cat2("warning: ", text));
    }

    /// Puts what another page says behind what this one says.
    pub fn add(&mut self, more: Page)
        ensures
            final(self)@ == old(self)@ + more@,
    {
        let ghost had = self@;
        let ghost other = more@;
        let mut rest = more.lines;
        self.lines.append(&mut rest);
        assert(self@ =~= had + other);
    }

    pub fn recovery_note(&mut self)
        ensures
            final(self)@ == old(self)@ + recovery_lines(),
    {
        self.tell(cat2("\n", RECOVERY_NOTE));
    }

    pub fn bullets(&mut self, items: &Vec<String>)
        ensures
            final(self)@ == old(self)@ + bullet_lines(texts(items@)),
    {
        let ghost all = texts(items@);
        let mut i: usize = 0;
        assert(all.take(0) =~= Seq::<Seq<char>>::empty());
        assert(self@ =~= old(self)@ + bullet_lines(all.take(0)));
        while i < items.len()
            invariant
                i <= items@.len(),
                all == texts(items@),
                self@ == old(self)@ + bullet_lines(all.take(i as int)),
            decreases items@.len() - i,
        {
            let ghost before = self@;
            self.bullet(items[i].as_str());
            assert(all.take(i as int + 1).drop_last() =~= all.take(i as int));
            assert(all.take(i as int + 1).last() == items@[i as int]@);
            assert(self@ =~= old(self)@ + bullet_lines(all.take(i as int + 1)));
            i += 1;
        }
        assert(all.take(all.len() as int) =~= all);
    }

    /// Texts under one label.
    pub fn labelled(&mut self, label: &str, items: &Vec<String>)
        ensures
            final(self)@ == old(self)@ + labelled_lines(label@, texts(items@)),
    {
        let ghost all = texts(items@);
        let mut i: usize = 0;
        assert(all.take(0) =~= Seq::<Seq<char>>::empty());
        assert(self@ =~= old(self)@ + labelled_lines(label@, all.take(0)));
        while i < items.len()
            invariant
                i <= items@.len(),
                all == texts(items@),
                self@ == old(self)@ + labelled_lines(label@, all.take(i as int)),
            decreases items@.len() - i,
        {
            let ghost next = all.take(i as int + 1);
            assert(next.drop_last() =~= all.take(i as int));
            assert(next.last() == items@[i as int]@);
            if i == 0 {
                assert(next[0] == items@[0]@);
                self.field(label, items[i].as_str());
                assert(self@ =~= old(self)@ + labelled_lines(label@, next));
            } else {
                self.field_cont(items[i].as_str());
                assert(self@ =~= old(self)@ + labelled_lines(label@, next));
            }
            i += 1;
        }
        assert(all.take(all.len() as int) =~= all);
    }
}

// ---------------------------------------------------------------------------
// Wrapping
// ---------------------------------------------------------------------------

/// Whole lines, and the line that is being filled.
pub struct Wrap {
    pub full: Seq<Seq<char>>,
    pub current: Seq<char>,
}

/// One more word: on the current line where it fits, else on a new one.
pub open spec fn with_word(w: Wrap, word: Seq<char>, width: int) -> Wrap {
    if w.current.len() == 0 {
        Wrap { full: w.full, current: word }
    } else if w.current.len() + 1 + word.len() > width {
        Wrap { full: w.full.push(w.current), current: word }
    } else {
        Wrap { full: w.full, current: w.current + " "@ + word }
    }
}

pub open spec fn wrap_words(ws: Seq<Seq<char>>, width: int) -> Wrap
    decreases ws.len(),
{
    if ws.len() == 0 {
        Wrap { full: Seq::empty(), current: Seq::empty() }
    } else {
        with_word(wrap_words(ws.drop_last(), width), ws.last(), width)
    }
}

pub open spec fn lines_in(w: Wrap) -> Seq<Seq<char>> {
    if w.current.len() == 0 {
        w.full
    } else {
        w.full.push(w.current)
    }
}

/// The words of a text on lines of at most `width` characters, as many on each
/// as fit.
pub open spec fn wrapped(text: Seq<char>, width: int) -> Seq<Seq<char>> {
    lines_in(wrap_words(words_of(text), width))
}

/// Wraps a text at its white space.
pub fn textwrap(text: &str, width: usize) -> (r: Vec<String>)
    ensures
        texts(r@) == wrapped(text@, width as int),
{
    let cs = chars_of(text);
    let ws = words(cs.as_slice());
    let ghost all = words_of(text@);
    let mut lines: Vec<String> = Vec::new();
    let mut current: Vec<char> = Vec::new();
    let mut i: usize = 0;
    assert(all.take(0) =~= Seq::<Seq<char>>::empty());
    assert(texts(lines@) =~= wrap_words(all.take(0), width as int).full);
    while i < ws.len()
        invariant
            i <= ws@.len(),
            pieces(ws@) == all,
            texts(lines@) == wrap_words(all.take(i as int), width as int).full,
            current@ == wrap_words(all.take(i as int), width as int).current,
        decreases ws@.len() - i,
    {
        let word = ws[i];
        let ghost next = all.take(i as int + 1);
        assert(next.drop_last() =~= all.take(i as int));
        assert(next.last() == word@);
        proof {
            reveal_strlit(" ");
        }
        let full = current.len() > 0 && (current.len() >= width || word.len() >= width
            - current.len());
        if full {
            let ghost had = lines@;
            lines.push(string_of(current.as_slice()));
            assert(texts(lines@) =~= texts(had).push(current@));
            current = Vec::new();
        }
        let ghost start = current@;
        if current.len() > 0 {
            current.push(' ');
        }
        let ghost base = current@;
        let mut k: usize = 0;
        while k < word.len()
            invariant
                k <= word@.len(),
                current@ == base + word@.take(k as int),
            decreases word@.len() - k,
        {
            current.push(word[k]);
            assert(current@ =~= base + word@.take(k as int + 1));
            k += 1;
        }
        assert(word@.take(word@.len() as int) =~= word@);
        proof {
            if start.len() == 0 {
                assert(current@ =~= word@);
            } else {
                assert(current@ =~= start + " "@ + word@);
            }
        }
        i += 1;
    }
    assert(all.take(all.len() as int) =~= all);
    if current.len() > 0 {
        let ghost had = lines@;
        lines.push(string_of(current.as_slice()));
        assert(texts(lines@) =~= texts(had).push(current@));
    }
    lines
}

proof fn lemma_joined_push(parts: Seq<Seq<char>>, last: Seq<char>, sep: Seq<char>)
    requires
        parts.len() > 0,
    ensures
        joined(parts.push(last), sep) == joined(parts, sep) + sep + last,
{
    assert(parts.push(last).drop_last() =~= parts);
}

proof fn lemma_wrap(ws: Seq<Seq<char>>, width: int)
    requires
        forall|i: int| 0 <= i < ws.len() ==> (#[trigger] ws[i]).len() > 0,
    ensures
        ({
            let w = wrap_words(ws, width);
            &&& ws.len() == 0 <==> w.current.len() == 0
            &&& ws.len() == 0 ==> w.full.len() == 0
            &&& joined(lines_in(w), " "@) == joined(ws, " "@)
            &&& forall|k: int|
                0 <= k < w.full.len() ==> (#[trigger] w.full[k]).len() <= width || ws.contains(
                    w.full[k],
                )
            &&& ws.len() > 0 ==> w.current.len() <= width || ws.contains(w.current)
        }),
    decreases ws.len(),
{
    reveal_strlit(" ");
    let w = wrap_words(ws, width);
    if ws.len() > 0 {
        let front = ws.drop_last();
        let word = ws.last();
        let b = wrap_words(front, width);
        assert forall|i: int| 0 <= i < front.len() implies (#[trigger] front[i]).len() > 0 by {
            assert(front[i] == ws[i]);
        }
        lemma_wrap(front, width);
        assert(ws =~= front.push(word));
        assert(ws[ws.len() - 1] == word);
        assert forall|t: Seq<char>| front.contains(t) implies ws.contains(t) by {
            let i = choose|i: int| 0 <= i < front.len() && front[i] == t;
            assert(ws[i] == t);
        }
        if b.current.len() == 0 {
            assert(front.len() == 0);
            assert(b.full.push(word) =~= seq![word]);
            assert(ws =~= seq![word]);
        } else if b.current.len() + 1 + word.len() > width {
            lemma_joined_push(b.full.push(b.current), word, " "@);
            lemma_joined_push(front, word, " "@);
        } else {
            let longer = b.current + " "@ + word;
            lemma_joined_push(front, word, " "@);
            if b.full.len() == 0 {
                assert(lines_in(b) =~= seq![b.current]);
                assert(lines_in(w) =~= seq![longer]);
                assert(joined(lines_in(w), " "@) =~= joined(ws, " "@));
            } else {
                lemma_joined_push(b.full, b.current, " "@);
                lemma_joined_push(b.full, longer, " "@);
                assert(joined(b.full, " "@) + " "@ + longer =~= joined(b.full, " "@) + " "@
                    + b.current + " "@ + word);
            }
        }
    }
}

proof fn lemma_words_not_empty(s: Seq<char>)
    ensures
        forall|i: int| 0 <= i < words_of(s).len() ==> (#[trigger] words_of(s)[i]).len() > 0,
        s.len() > 0 && !crate::text::white_space(s.last()) ==> words_of(s).len() > 0,
    decreases s.len(),
{
    if s.len() > 0 {
        let f = s.drop_last();
        lemma_words_not_empty(f);
        if f.len() > 0 {
            assert(f.last() == s[s.len() - 2]);
        }
        let front = words_of(f);
        assert forall|i: int| 0 <= i < words_of(s).len() implies (#[trigger] words_of(s)[i]).len()
            > 0 by {
            if i < front.len() {
                assert(front[i].len() > 0);
            }
        }
    }
}

/// Wrapping neither loses nor adds a word, and a line is only longer than it
/// should be where it is a single word that does not fit.
pub proof fn law_wrapping_keeps_words_and_width(text: Seq<char>, width: int)
    ensures
        joined(wrapped(text, width), " "@) == joined(words_of(text), " "@),
        forall|k: int|
            0 <= k < wrapped(text, width).len() ==> (#[trigger] wrapped(text, width)[k]).len()
                <= width || words_of(text).contains(wrapped(text, width)[k]),
{
    lemma_words_not_empty(text);
    lemma_wrap(words_of(text), width);
}

/// The first word of a line.
pub open spec fn head(line: Seq<char>) -> Seq<char> {
    words_of(line)[0]
}

/// A line is broken only where the next word does not fit on it any more.
pub proof fn law_lines_are_as_full_as_they_can_be(text: Seq<char>, width: int, k: int)
    requires
        0 <= k < wrapped(text, width).len() - 1,
    ensures
        wrapped(text, width)[k].len() + 1 + head(wrapped(text, width)[k + 1]).len() > width,
{
    law_words_are_words(text);
    lemma_wrap_is_full(words_of(text), width);
}

proof fn lemma_wrap_is_full(ws: Seq<Seq<char>>, width: int)
    requires
        forall|i: int| 0 <= i < ws.len() ==> is_word(#[trigger] ws[i]),
    ensures
        ({
            let w = wrap_words(ws, width);
            let all = w.full.push(w.current);
            &&& ws.len() > 0 ==> w.current.len() > 0 && words_of(w.current).len() > 0
            &&& ws.len() == 0 ==> w.current.len() == 0 && w.full.len() == 0
            &&& forall|k: int|
                0 <= k < w.full.len() ==> (#[trigger] all[k]).len() + 1 + head(all[k + 1]).len()
                    > width
        }),
    decreases ws.len(),
{
    if ws.len() > 0 {
        let front = ws.drop_last();
        let word = ws.last();
        assert forall|i: int| 0 <= i < front.len() implies is_word(#[trigger] front[i]) by {
            assert(front[i] == ws[i]);
        }
        lemma_wrap_is_full(front, width);
        assert(is_word(ws[ws.len() - 1]));
        law_a_text_without_white_space_is_a_word(word);
        let before = wrap_words(front, width);
        let w = wrap_words(ws, width);
        let old_all = before.full.push(before.current);
        let all = w.full.push(w.current);
        reveal_strlit(" ");
        assert(" "@ =~= seq![' ']);
        if before.current.len() > 0 && before.current.len() + 1 + word.len() <= width {
            law_words_part_at_white_space(before.current, ' ', word);
            assert(w.current == before.current + seq![' '] + word);
            assert(head(w.current) == head(before.current));
        }
        assert forall|k: int| 0 <= k < w.full.len() implies (#[trigger] all[k]).len() + 1 + head(
            all[k + 1],
        ).len() > width by {
            if k < before.full.len() {
                assert(old_all[k].len() + 1 + head(old_all[k + 1]).len() > width);
                assert(all[k] == old_all[k]);
                if k + 1 < before.full.len() {
                    assert(all[k + 1] == old_all[k + 1]);
                } else {
                    assert(head(all[k + 1]) == head(old_all[k + 1]));
                }
            } else {
                assert(all[k] == before.current);
                assert(all[k + 1] == word);
            }
        }
    }
}

/// A field is its label, in a column of its own, and its value; a heading is
/// underlined to its own length.
pub proof fn law_a_field_stands_in_its_column(label: Seq<char>, value: Seq<char>)
    ensures
        field_line(label, value).len() == 1,
        field_line(label, value)[0] matches LineView::Out(line) && {
            &&& line.subrange(2, 2int + label.len()) == label
            &&& line.skip(line.len() - value.len()) == value
            &&& label.len() <= 22 ==> line.len() == 25 + value.len()
            &&& label.len() > 22 ==> line.len() == 3 + label.len() + value.len()
        },
        heading_lines(label).len() == 2,
        heading_lines(label)[1] matches LineView::Out(rule) && rule.len() == label.len() && forall|
            i: int,
        |
            0 <= i < rule.len() ==> #[trigger] rule[i] == '-',
{
    reveal_strlit("  ");
    reveal_strlit(" ");
    let line = "  "@ + padded(label, 22) + " "@ + value;
    assert(line.subrange(2, 2int + label.len()) =~= label);
    assert(line.skip(line.len() - value.len()) =~= value);
}

/// Every item of a list has a line of its own, in order; only the first stands
/// beside the label.
pub proof fn law_every_item_has_its_line(label: Seq<char>, items: Seq<Seq<char>>, i: int)
    requires
        0 <= i < items.len(),
    ensures
        bullet_lines(items).len() == items.len(),
        bullet_lines(items)[i] == LineView::Out("  - "@ + items[i]),
        labelled_lines(label, items).len() == items.len(),
        labelled_lines(label, items)[i] == (if i == 0 {
            field_line(label, items[0])
        } else {
            field_line(Seq::empty(), items[i])
        })[0],
    decreases items.len(),
{
    reveal_strlit("");
    assert(""@ =~= Seq::<char>::empty());
    let front = items.drop_last();
    if items.len() > 1 {
        if i < front.len() {
            law_every_item_has_its_line(label, front, i);
            assert(front[i] == items[i]);
        } else {
            law_every_item_has_its_line(label, front, 0);
        }
        assert(front[0] == items[0]);
    } else {
        assert(bullet_lines(front).len() == 0);
    }
}

} // verus!
