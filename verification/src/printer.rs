//! Where the program's output goes.

use vstd::prelude::*;
use crate::text::push_str;

verus! {

/// The lines printed, each followed by a line break.
pub open spec fn printed_lines(lines: Seq<Seq<char>>) -> Seq<char>
    decreases lines.len(),
{
    if lines.len() == 0 {
        Seq::empty()
    } else {
        printed_lines(lines.drop_last()) + lines.last() + seq!['\n']
    }
}

/// A place that lines of output go to.
pub trait Printer {
    /// Everything printed so far (a printer outside this crate need not give it;
    /// what is proved of its use then holds of whatever it keeps to).
    closed spec fn printed(&self) -> Seq<char> {
        arbitrary()
    }

    /// Everything warned about so far (kept apart from what is printed).
    closed spec fn warned(&self) -> Seq<char> {
        arbitrary()
    }

    /// Prints a line: the text and a line break.
    fn print(&mut self, text: &str)
        ensures
            final(self).printed() == old(self).printed() + text@ + seq!['\n'],
            final(self).warned() == old(self).warned(),
    ;

    /// Warns the user with a line (the program writes warnings to standard error):
    /// the text and a line break, apart from what is printed.
    fn warn(&mut self, text: &str)
        ensures
            final(self).warned() == old(self).warned() + text@ + seq!['\n'],
            final(self).printed() == old(self).printed(),
    ;
}

/// A printer that keeps what it was given, for tests: what was printed, and apart
/// from it the warnings.
pub struct MockPrinter {
    pub text: String,
    pub warnings: String,
}

impl MockPrinter {
    pub fn new() -> (r: Self)
        ensures
            r.text@ == Seq::<char>::empty(),
            r.warnings@ == Seq::<char>::empty(),
    {
        Self { text: String::new(), warnings: String::new() }
    }

    /// Forgets everything printed so far (the warnings stay).
    pub fn clear(&mut self)
        ensures
            final(self).text@ == Seq::<char>::empty(),
            final(self).warnings@ == old(self).warnings@,
    {
        self.text = String::new();
    }
}

impl Printer for MockPrinter {
    open spec fn printed(&self) -> Seq<char> {
        self.text@
    }

    open spec fn warned(&self) -> Seq<char> {
        self.warnings@
    }

    fn print(&mut self, text: &str) {
        push_str(&mut self.text, text);
        push_str(&mut self.text, "\n");
        proof {
            reveal_strlit("\n");
        }
    }

    fn warn(&mut self, text: &str) {
        push_str(&mut self.warnings, text);
        push_str(&mut self.warnings, "\n");
        proof {
            reveal_strlit("\n");
        }
    }
}

/// Prints the lines one after the other.
pub fn print_all<W: Printer>(printer: &mut W, lines: &Vec<String>)
    ensures
        final(printer).printed() == old(printer).printed() + printed_lines(crate::util::texts(lines@)),
        final(printer).warned() == old(printer).warned(),
{
    let mut i: usize = 0;
    assert(crate::util::texts(lines@.take(0)) =~= Seq::<Seq<char>>::empty());
    assert(printer.printed() =~= old(printer).printed() + printed_lines(Seq::<Seq<char>>::empty()));
    while i < lines.len()
        invariant
            i <= lines.len(),
            printer.printed() == old(printer).printed() + printed_lines(crate::util::texts(lines@.take(i as int))),
            printer.warned() == old(printer).warned(),
        decreases lines.len() - i,
    {
        printer.print(lines[i].as_str());
        assert(crate::util::texts(lines@.take(i + 1)).drop_last() =~= crate::util::texts(lines@.take(i as int)));
        assert(crate::util::texts(lines@.take(i + 1)).last() == lines@[i as int]@);
        assert(printer.printed() =~= old(printer).printed() + printed_lines(crate::util::texts(lines@.take(i + 1))));
        i += 1;
    }
    assert(lines@.take(lines.len() as int) =~= lines@);
}

} // verus!
