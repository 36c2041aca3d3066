//! A text buffer that prefixes every line with the current indentation.
use vstd::prelude::*;

verus! {

/// `unit` repeated `depth` times.
pub open spec fn indentation(unit: Seq<char>, depth: nat) -> Seq<char>
    decreases depth,
{
    if depth == 0 {
        Seq::empty()
    } else {
        indentation(unit, (depth - 1) as nat) + unit
    }
}

/// One emitted line: the indentation, the line itself, and a newline.
pub open spec fn line_text(unit: Seq<char>, depth: nat, line: Seq<char>) -> Seq<char> {
    indentation(unit, depth) + line + "\n"@
}

/// Several lines emitted one after another at the same depth.
pub open spec fn lines_text(unit: Seq<char>, depth: nat, lines: Seq<Seq<char>>) -> Seq<char>
    decreases lines.len(),
{
    if lines.len() == 0 {
        Seq::empty()
    } else {
        lines_text(unit, depth, lines.drop_last()) + line_text(unit, depth, lines.last())
    }
}

/// Emitting `a` and then `b` gives the text of `a + b`.
pub proof fn lemma_lines_text_append(unit: Seq<char>, depth: nat, a: Seq<Seq<char>>, b: Seq<Seq<char>>)
    ensures
        lines_text(unit, depth, a + b) == lines_text(unit, depth, a) + lines_text(unit, depth, b),
    decreases b.len(),
{
    if b.len() == 0 {
        assert(a + b =~= a);
        assert(lines_text(unit, depth, a) + Seq::<char>::empty() =~= lines_text(unit, depth, a));
    } else {
        assert((a + b).drop_last() =~= a + b.drop_last());
        lemma_lines_text_append(unit, depth, a, b.drop_last());
        assert((a + b).last() == b.last());
        assert(lines_text(unit, depth, a + b) =~= lines_text(unit, depth, a) + lines_text(
            unit,
            depth,
            b,
        ));
    }
}

/// What an `Output` holds: the text so far, the current depth and the
/// string written once per level of depth.
pub struct OutputView {
    pub text: Seq<char>,
    pub depth: nat,
    pub unit: Seq<char>,
}

/// A growing text whose lines are indented by a tracked depth.
pub struct Output {
    text: String,
    indent_level: usize,
    indent_str: String,
}

impl View for Output {
    type V = OutputView;

    closed spec fn view(&self) -> OutputView {
        OutputView { text: self.text@, depth: self.indent_level as nat, unit: self.indent_str@ }
    }
}

impl Output {
    /// An empty buffer at depth zero that indents by `indent_str` per level.
    pub fn new(indent_str: String) -> (r: Output)
        ensures
            r@.text == Seq::<char>::empty(),
            r@.depth == 0,
            r@.unit == indent_str@,
    {
        Output { text: String::new(), indent_level: 0, indent_str }
    }

    /// Appends the indentation, `line` and a newline.
    pub fn writeln(&mut self, line: &str)
        ensures
            final(self)@.text == old(self)@.text + line_text(old(self)@.unit, old(self)@.depth, line@),
            final(self)@.depth == old(self)@.depth,
            final(self)@.unit == old(self)@.unit,
    {
        let ghost start = self.text@;
        let mut k: usize = 0;
        while k < self.indent_level
            invariant
                k <= self.indent_level,
                self.indent_level == old(self).indent_level,
                self.indent_str == old(self).indent_str,
                start == old(self).text@,
                self.text@ == start + indentation(self.indent_str@, k as nat),
            decreases self.indent_level - k,
        {
            self.text.append(self.indent_str.as_str());
            assert(self.text@ =~= start + indentation(self.indent_str@, (k + 1) as nat));
            k = k + 1;
        }
        self.text.append(line);
        self.text.append("\n");
        assert(self.text@ =~= start + line_text(self.indent_str@, self.indent_level as nat, line@));
    }

    /// One level deeper.
    pub fn indent(&mut self)
        requires
            old(self)@.depth < usize::MAX,
        ensures
            final(self)@.text == old(self)@.text,
            final(self)@.depth == old(self)@.depth + 1,
            final(self)@.unit == old(self)@.unit,
    {
        self.indent_level = self.indent_level + 1;
    }

    /// One level shallower.
    pub fn dedent(&mut self)
        requires
            old(self)@.depth > 0,
        ensures
            final(self)@.text == old(self)@.text,
            final(self)@.depth == old(self)@.depth - 1,
            final(self)@.unit == old(self)@.unit,
    {
        self.indent_level = self.indent_level - 1;
    }

    /// The current depth.
    pub fn depth(&self) -> (r: usize)
        ensures
            r == self@.depth,
    {
        self.indent_level
    }

    /// A copy of everything written so far; the buffer is left as it is.
    pub fn text(&self) -> (r: String)
        ensures
            r@ == self@.text,
    {
        self.text.clone()
    }
}

} // verus!
