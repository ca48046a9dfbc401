//! What the textual views are computed from: the widths and rules of the
//! line-per-task view, and the static command table shown by the help
//! action. Styling and printing are left to the caller.

use vstd::prelude::*;

use crate::codec::push_char;
use crate::task::{TaskModel, Todo};

verus! {

/// The width of one task's line: its three fields and the fixed decoration
/// around them.
pub open spec fn spec_row_width(t: TaskModel) -> int {
    t.id.len() + t.title.len() + t.body.len() + 15int
}

/// The widest line of the collection, or 0 for an empty collection.
pub open spec fn spec_max_width(s: Seq<TaskModel>) -> int
    decreases s.len(),
{
    if s.len() == 0 {
        0
    } else {
        let rest = spec_max_width(s.drop_last());
        let w = spec_row_width(s.last());
        if w > rest {
            w
        } else {
            rest
        }
    }
}

/// The widest line of the collection, saturated at the machine limit.
pub fn max_row_width(todos: &Vec<Todo>) -> (r: usize)
    ensures
        r as int == (if spec_max_width(todos.deep_view()) <= usize::MAX as int {
            spec_max_width(todos.deep_view())
        } else {
            usize::MAX as int
        }),
{
    let n = todos.len();
    let mut best: usize = 0;
    let mut i: usize = 0;
    proof {
        assert(todos.deep_view().take(0) =~= Seq::<TaskModel>::empty());
    }
    while i < n
        invariant
            i <= n,
            n == todos@.len(),
            best as int == (if spec_max_width(todos.deep_view().take(i as int)) <= usize::MAX
                as int {
                spec_max_width(todos.deep_view().take(i as int))
            } else {
                usize::MAX as int
            }),
        decreases n - i,
    {
        let t = &todos[i];
        let w = t.id.as_str().unicode_len().saturating_add(
            t.title.as_str().unicode_len(),
        ).saturating_add(t.body.as_str().unicode_len()).saturating_add(15);
        proof {
            let dv = todos.deep_view();
            assert(dv.take(i + 1).drop_last() =~= dv.take(i as int));
            assert(dv.take(i + 1).last() == dv[i as int]);
        }
        if w > best {
            best = w;
        }
        i = i + 1;
    }
    proof {
        assert(todos.deep_view().take(n as int) =~= todos.deep_view());
    }
    best
}

/// A horizontal rule of `n` equals signs.
pub fn banner(n: usize) -> (r: String)
    ensures
        r@ == Seq::new(n as nat, |i: int| '='),
{
    let mut out = String::new();
    let mut i: usize = 0;
    proof {
        assert(out@ =~= Seq::new(0, |j: int| '='));
    }
    while i < n
        invariant
            i <= n,
            out@ == Seq::new(i as nat, |j: int| '='),
        decreases n - i,
    {
        push_char(&mut out, '=');
        proof {
            assert(Seq::new(i as nat, |j: int| '=').push('=') =~= Seq::new(
                (i + 1) as nat,
                |j: int| '=',
            ));
        }
        i = i + 1;
    }
    out
}

/// The length of the rule drawn on each side of the heading, for a row
/// width of `w`: three less than half the width, and nothing for narrower
/// collections.
pub fn title_rule_len(w: usize) -> (r: usize)
    ensures
        r as int == (if w as int / 2 >= 3 {
            w as int / 2 - 3
        } else {
            0
        }),
{
    let h = w / 2;
    if h >= 3 {
        h - 3
    } else {
        0
    }
}

/// One row of the help table: an action, how it is invoked, and what it
/// does.
pub struct CliCommand {
    pub name: String,
    pub command: String,
    pub information: String,
}

/// The five rows of the help table, one per recognized action, each with
/// its usage string and description.
pub fn help_commands() -> (r: Vec<CliCommand>)
    ensures
        r@.len() == 5,
        r@[0].name@ == "create"@,
        r@[0].command@ == "cli.exe create \"<title>\" \"<body>\""@,
        r@[0].information@
            == "Used to create a new TODO. <title> is the title, <body> is the description."@,
        r@[1].name@ == "update"@,
        r@[1].command@ == "cli.exe update \"<id>\" \"<title>\" \"<body>\""@,
        r@[1].information@
            == "Used to update an existing TODO. <id> is the ID of the TODO, <title> is the new title, <body> is the new description."@,
        r@[2].name@ == "delete"@,
        r@[2].command@ == "cli.exe delete \"<id>\""@,
        r@[2].information@
            == "Used to delete a TODO with the specified ID. <id> is the ID of the TODO to be deleted."@,
        r@[3].name@ == "list"@,
        r@[3].command@ == "cli.exe list"@,
        r@[3].information@ == "Lists all existing TODOs."@,
        r@[4].name@ == "help"@,
        r@[4].command@ == "cli.exe help"@,
        r@[4].information@ == "Displays the list of available commands and their descriptions."@,
{
    let mut commands: Vec<CliCommand> = Vec::new();
    commands.push(
        CliCommand {
            name: "create".to_owned(),
            command: "cli.exe create \"<title>\" \"<body>\"".to_owned(),
            information:
                "Used to create a new TODO. <title> is the title, <body> is the description.".to_owned(),
        },
    );
    commands.push(
        CliCommand {
            name: "update".to_owned(),
            command: "cli.exe update \"<id>\" \"<title>\" \"<body>\"".to_owned(),
            information:
                "Used to update an existing TODO. <id> is the ID of the TODO, <title> is the new title, <body> is the new description.".to_owned(),
        },
    );
    commands.push(
        CliCommand {
            name: "delete".to_owned(),
            command: "cli.exe delete \"<id>\"".to_owned(),
            information:
                "Used to delete a TODO with the specified ID. <id> is the ID of the TODO to be deleted.".to_owned(),
        },
    );
    commands.push(
        CliCommand {
            name: "list".to_owned(),
            command: "cli.exe list".to_owned(),
            information: "Lists all existing TODOs.".to_owned(),
        },
    );
    commands.push(
        CliCommand {
            name: "help".to_owned(),
            command: "cli.exe help".to_owned(),
            information:
                "Displays the list of available commands and their descriptions.".to_owned(),
        },
    );
    commands
}

} // verus!
