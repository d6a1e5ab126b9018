//! Asking the user: texts, confirmations, choices and dates.

use vstd::prelude::*;
use crate::error::FiniError;

verus! {

/// A reply that holds a text, as a sequence of characters.
pub open spec fn text_reply(r: Result<String, FiniError>) -> Result<Seq<char>, FiniError> {
    match r {
        Ok(s) => Ok(s@),
        Err(e) => Err(e),
    }
}

/// A reply that holds positions, as a sequence.
pub open spec fn positions_reply(r: Result<Vec<usize>, FiniError>) -> Result<Seq<usize>, FiniError> {
    match r {
        Ok(v) => Ok(v@),
        Err(e) => Err(e),
    }
}

/// A way to ask the user. Each answer comes from the user; what a prompter may
/// reply to each question is its model (a prompter that asks a person may reply
/// anything), and every reply it gives is one of those. Beyond that: a choice is
/// one of the options offered, and a failure is reported as `FiniError::Prompt`.
pub trait Prompter {
    // The model of a prompter. A prompter outside this crate need not give one;
    // what is proved of its use then holds of whatever model it keeps to.

    /// The reply may come when a text is asked for with the message.
    closed spec fn may_give_text(&self, message: Seq<char>, reply: Result<Seq<char>, FiniError>) -> bool {
        arbitrary()
    }

    /// The reply may come when a text is asked for with the message, offering
    /// `initial` to edit.
    closed spec fn may_give_edit(&self, message: Seq<char>, initial: Seq<char>, reply: Result<Seq<char>, FiniError>) -> bool {
        arbitrary()
    }

    /// The reply may come to a yes-or-no question with the message.
    closed spec fn may_confirm(&self, message: Seq<char>, reply: Result<bool, FiniError>) -> bool {
        arbitrary()
    }

    /// The reply may come when one of `count` options is to be chosen.
    closed spec fn may_choose_one(&self, message: Seq<char>, count: nat, reply: Result<Option<usize>, FiniError>) -> bool {
        arbitrary()
    }

    /// The reply may come when any of `count` options are to be chosen.
    closed spec fn may_choose_many(&self, message: Seq<char>, count: nat, reply: Result<Seq<usize>, FiniError>) -> bool {
        arbitrary()
    }

    /// The reply may come when a date is asked for with the message.
    closed spec fn may_give_date(&self, message: Seq<char>, reply: Result<Seq<char>, FiniError>) -> bool {
        arbitrary()
    }

    /// Asks for a text.
    fn text(&self, message: &str) -> (r: Result<String, FiniError>)
        ensures
            self.may_give_text(message@, text_reply(r)),
            r matches Err(e) ==> e is Prompt,
    ;

    /// Asks for a text, offering `initial` to edit.
    fn text_with_initial(&self, message: &str, initial: &str) -> (r: Result<String, FiniError>)
        ensures
            self.may_give_edit(message@, initial@, text_reply(r)),
            r matches Err(e) ==> e is Prompt,
    ;

    /// Asks for a yes or a no.
    fn confirm(&self, message: &str) -> (r: Result<bool, FiniError>)
        ensures
            self.may_confirm(message@, r),
            r matches Err(e) ==> e is Prompt,
    ;

    /// Asks to choose one of the options: its position, or `None` if the user
    /// cancelled.
    fn select_one(&self, message: &str, options: &Vec<String>) -> (r: Result<Option<usize>, FiniError>)
        ensures
            self.may_choose_one(message@, options.len() as nat, r),
            r matches Ok(Some(i)) ==> i < options.len(),
            r matches Err(e) ==> e is Prompt,
    ;

    /// Asks to choose any of the options: their positions (none if the user
    /// cancelled).
    fn select_many(&self, message: &str, options: &Vec<String>) -> (r: Result<Vec<usize>, FiniError>)
        ensures
            self.may_choose_many(message@, options.len() as nat, positions_reply(r)),
            r matches Ok(v) ==> forall|k: int| 0 <= k < v.len() ==> #[trigger] v@[k] < options.len(),
            r matches Err(e) ==> e is Prompt,
    ;

    /// Asks for a date, written `YYYY-MM-DD`.
    fn select_date(&self, message: &str) -> (r: Result<String, FiniError>)
        ensures
            self.may_give_date(message@, text_reply(r)),
            r matches Err(e) ==> e is Prompt,
    ;
}

/// The prompter never fails to reply.
pub open spec fn always_replies<P: Prompter>(p: P) -> bool {
    &&& forall|m: Seq<char>, e: FiniError| #![trigger p.may_give_text(m, Err(e))] !p.may_give_text(m, Err(e))
    &&& forall|m: Seq<char>, i: Seq<char>, e: FiniError| #![trigger p.may_give_edit(m, i, Err(e))] !p.may_give_edit(m, i, Err(e))
    &&& forall|m: Seq<char>, e: FiniError| #![trigger p.may_confirm(m, Err(e))] !p.may_confirm(m, Err(e))
    &&& forall|m: Seq<char>, n: nat, e: FiniError| #![trigger p.may_choose_one(m, n, Err(e))] !p.may_choose_one(m, n, Err(e))
    &&& forall|m: Seq<char>, n: nat, e: FiniError| #![trigger p.may_choose_many(m, n, Err(e))] !p.may_choose_many(m, n, Err(e))
    &&& forall|m: Seq<char>, e: FiniError| #![trigger p.may_give_date(m, Err(e))] !p.may_give_date(m, Err(e))
}

/// A prompter with answers fixed in advance, for tests: every text asked for is
/// `next_text_response` (a date too), every confirmation is a yes, and every
/// choice is cancelled.
pub struct MockPrompter {
    pub next_text_response: String,
}

impl MockPrompter {
    pub fn new() -> (r: Self)
        ensures
            r.next_text_response@ == Seq::<char>::empty(),
    {
        MockPrompter { next_text_response: String::new() }
    }
}

impl Default for MockPrompter {
    /// The prompter `new` makes.
    fn default() -> (r: Self)
        ensures
            r.next_text_response@ == Seq::<char>::empty(),
    {
        Self::new()
    }
}

impl Prompter for MockPrompter {
    open spec fn may_give_text(&self, message: Seq<char>, reply: Result<Seq<char>, FiniError>) -> bool {
        reply == Ok::<Seq<char>, FiniError>(self.next_text_response@)
    }

    open spec fn may_give_edit(&self, message: Seq<char>, initial: Seq<char>, reply: Result<Seq<char>, FiniError>) -> bool {
        reply == Ok::<Seq<char>, FiniError>(self.next_text_response@)
    }

    open spec fn may_confirm(&self, message: Seq<char>, reply: Result<bool, FiniError>) -> bool {
        reply == Ok::<bool, FiniError>(true)
    }

    open spec fn may_choose_one(&self, message: Seq<char>, count: nat, reply: Result<Option<usize>, FiniError>) -> bool {
        reply == Ok::<Option<usize>, FiniError>(None)
    }

    open spec fn may_choose_many(&self, message: Seq<char>, count: nat, reply: Result<Seq<usize>, FiniError>) -> bool {
        reply == Ok::<Seq<usize>, FiniError>(Seq::empty())
    }

    open spec fn may_give_date(&self, message: Seq<char>, reply: Result<Seq<char>, FiniError>) -> bool {
        reply == Ok::<Seq<char>, FiniError>(self.next_text_response@)
    }

    fn text(&self, message: &str) -> (r: Result<String, FiniError>)
        ensures
            r matches Ok(s) && s@ == self.next_text_response@,
    {
        Ok(self.next_text_response.clone())
    }

    fn text_with_initial(&self, message: &str, initial: &str) -> (r: Result<String, FiniError>)
        ensures
            r matches Ok(s) && s@ == self.next_text_response@,
    {
        Ok(self.next_text_response.clone())
    }

    fn confirm(&self, message: &str) -> (r: Result<bool, FiniError>)
        ensures
            r matches Ok(b) && b,
    {
        Ok(true)
    }

    fn select_one(&self, message: &str, options: &Vec<String>) -> (r: Result<Option<usize>, FiniError>)
        ensures
            r matches Ok(c) && c is None,
    {
        Ok(None)
    }

    fn select_many(&self, message: &str, options: &Vec<String>) -> (r: Result<Vec<usize>, FiniError>)
        ensures
            r matches Ok(v) && v.len() == 0,
    {
        let v: Vec<usize> = Vec::new();
        assert(v@ =~= Seq::<usize>::empty());
        Ok(v)
    }

    fn select_date(&self, message: &str) -> (r: Result<String, FiniError>)
        ensures
            r matches Ok(s) && s@ == self.next_text_response@,
    {
        Ok(self.next_text_response.clone())
    }
}

} // verus!
