//! The command dispatcher: it maps an action name and positional arguments
//! to exactly one store operation, or to an argument error when the action
//! is unknown or has too few arguments.

use vstd::prelude::*;

use crate::store::TaskStore;
use crate::task::{contains_id, is_first_match, remove_id, TaskModel, Todo};

verus! {

/// A recognized action name.
pub enum Action {
    Create,
    Update,
    Delete,
    List,
    Help,
}

/// A fatal fault in the invocation itself.
pub enum ArgumentError {
    /// The action name is not one of the recognized actions.
    UnknownAction,
    /// The action was given fewer arguments than it requires.
    TooFewArguments,
}

/// What a successful invocation did, and what is to be rendered after it.
pub enum Outcome {
    /// A task was created; the list is to be rendered.
    Created(Todo),
    /// The minted id was already taken, so nothing was stored.
    CreateFailed,
    /// The update was applied, or silently skipped when its id was absent;
    /// the list is to be rendered.
    Updated,
    /// The delete was applied, or silently skipped when its id was absent;
    /// the list is to be rendered.
    Deleted,
    /// Nothing changed; the list is to be rendered.
    Listed,
    /// Nothing changed; the command table is to be rendered.
    Helped,
}

/// Which action a name denotes, if any.
pub open spec fn spec_action_of(s: Seq<char>) -> Option<Action> {
    if s == seq!['c', 'r', 'e', 'a', 't', 'e'] {
        Some(Action::Create)
    } else if s == seq!['u', 'p', 'd', 'a', 't', 'e'] {
        Some(Action::Update)
    } else if s == seq!['d', 'e', 'l', 'e', 't', 'e'] {
        Some(Action::Delete)
    } else if s == seq!['l', 'i', 's', 't'] {
        Some(Action::List)
    } else if s == seq!['h', 'e', 'l', 'p'] {
        Some(Action::Help)
    } else {
        None
    }
}

/// True exactly when `s` is the given six characters.
fn is_word6(s: &str, c0: char, c1: char, c2: char, c3: char, c4: char, c5: char) -> (r: bool)
    ensures
        r == (s@ == seq![c0, c1, c2, c3, c4, c5]),
{
    let n = s.unicode_len();
    let r = n == 6 && s.get_char(0) == c0 && s.get_char(1) == c1 && s.get_char(2) == c2
        && s.get_char(3) == c3 && s.get_char(4) == c4 && s.get_char(5) == c5;
    if r {
        assert(s@ =~= seq![c0, c1, c2, c3, c4, c5]);
    }
    r
}

/// True exactly when `s` is the given four characters.
fn is_word4(s: &str, c0: char, c1: char, c2: char, c3: char) -> (r: bool)
    ensures
        r == (s@ == seq![c0, c1, c2, c3]),
{
    let n = s.unicode_len();
    let r = n == 4 && s.get_char(0) == c0 && s.get_char(1) == c1 && s.get_char(2) == c2
        && s.get_char(3) == c3;
    if r {
        assert(s@ =~= seq![c0, c1, c2, c3]);
    }
    r
}

/// Recognizes an action name.
pub fn parse_action(s: &str) -> (r: Option<Action>)
    ensures
        r == spec_action_of(s@),
{
    if is_word6(s, 'c', 'r', 'e', 'a', 't', 'e') {
        Some(Action::Create)
    } else if is_word6(s, 'u', 'p', 'd', 'a', 't', 'e') {
        Some(Action::Update)
    } else if is_word6(s, 'd', 'e', 'l', 'e', 't', 'e') {
        Some(Action::Delete)
    } else if is_word4(s, 'l', 'i', 's', 't') {
        Some(Action::List)
    } else if is_word4(s, 'h', 'e', 'l', 'p') {
        Some(Action::Help)
    } else {
        None
    }
}

/// How many arguments an action requires.
pub fn required_args(action: &Action) -> (r: usize)
    ensures
        r == (match action {
            Action::Create => 2int,
            Action::Update => 3int,
            Action::Delete => 1int,
            Action::List => 0int,
            Action::Help => 0int,
        }),
{
    match action {
        Action::Create => 2,
        Action::Update => 3,
        Action::Delete => 1,
        Action::List => 0,
        Action::Help => 0,
    }
}

/// Performs the one store operation that the action and arguments request.
/// Extra arguments beyond the required ones are ignored.
pub fn dispatch(store: &mut TaskStore, action: &str, args: &Vec<String>) -> (r: Result<
    Outcome,
    ArgumentError,
>)
    requires
        old(store).wf(),
    ensures
        final(store).wf(),
        ({
            let av = args.deep_view();
            match spec_action_of(action@) {
                None => r == Err::<Outcome, ArgumentError>(ArgumentError::UnknownAction)
                    && final(store)@ == old(store)@,
                Some(a) => match a {
                    Action::Create => {
                        if av.len() < 2 {
                            r == Err::<Outcome, ArgumentError>(ArgumentError::TooFewArguments)
                                && final(store)@ == old(store)@
                        } else {
                            match r {
                                Ok(Outcome::Created(t)) => {
                                    &&& t@.id.len() == 36
                                    &&& t@.title == av[0]
                                    &&& t@.body == av[1]
                                    &&& !contains_id(old(store)@, t@.id)
                                    &&& final(store)@ == old(store)@.push(t@)
                                },
                                Ok(Outcome::CreateFailed) => final(store)@ == old(store)@
                                    && (exists|u: Seq<char>|
                                    u.len() == 36 && contains_id(old(store)@, u)),
                                _ => false,
                            }
                        }
                    },
                    Action::Update => {
                        if av.len() < 3 {
                            r == Err::<Outcome, ArgumentError>(ArgumentError::TooFewArguments)
                                && final(store)@ == old(store)@
                        } else {
                            &&& r == Ok::<Outcome, ArgumentError>(Outcome::Updated)
                            &&& (!contains_id(old(store)@, av[0]) ==> final(store)@ == old(
                                store,
                            )@)
                            &&& (contains_id(old(store)@, av[0]) ==> exists|k: int|
                                is_first_match(old(store)@, av[0], k) && final(store)@ == old(
                                    store,
                                )@.update(
                                    k,
                                    TaskModel { id: av[0], title: av[1], body: av[2] },
                                ))
                            &&& final(store)@.len() == old(store)@.len()
                        }
                    },
                    Action::Delete => {
                        if av.len() < 1 {
                            r == Err::<Outcome, ArgumentError>(ArgumentError::TooFewArguments)
                                && final(store)@ == old(store)@
                        } else {
                            &&& r == Ok::<Outcome, ArgumentError>(Outcome::Deleted)
                            &&& final(store)@ == remove_id(old(store)@, av[0])
                        }
                    },
                    Action::List => r == Ok::<Outcome, ArgumentError>(Outcome::Listed)
                        && final(store)@ == old(store)@,
                    Action::Help => r == Ok::<Outcome, ArgumentError>(Outcome::Helped)
                        && final(store)@ == old(store)@,
                },
            }
        }),
{
    match parse_action(action) {
        None => Err(ArgumentError::UnknownAction),
        Some(Action::Create) => {
            if args.len() < 2 {
                Err(ArgumentError::TooFewArguments)
            } else {
                let title = args[0].clone();
                let body = args[1].clone();
                match store.create(title, body) {
                    Some(t) => Ok(Outcome::Created(t)),
                    None => Ok(Outcome::CreateFailed),
                }
            }
        },
        Some(Action::Update) => {
            if args.len() < 3 {
                Err(ArgumentError::TooFewArguments)
            } else {
                let id = args[0].clone();
                let title = args[1].clone();
                let body = args[2].clone();
                store.update(id, title, body);
                Ok(Outcome::Updated)
            }
        },
        Some(Action::Delete) => {
            if args.len() < 1 {
                Err(ArgumentError::TooFewArguments)
            } else {
                let id = args[0].clone();
                store.delete(id);
                Ok(Outcome::Deleted)
            }
        },
        Some(Action::List) => Ok(Outcome::Listed),
        Some(Action::Help) => Ok(Outcome::Helped),
    }
}

} // verus!
