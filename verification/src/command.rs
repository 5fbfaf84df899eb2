use vstd::prelude::*;
use vstd::string::StringExecFns;

verus! {

use crate::item::{Item, ItemView, views};
use crate::ops::{delete, delete_done, done, edit, keep_undone, toggle_spec, undone};
use crate::select::{
    parse_picker,
    parse_usize_spec,
    parse_usize_token,
    picker_spec,
    resolve_first,
    resolve_last,
    SelView,
    TodoPicker,
};
use crate::strutil::{eq_str, join_spec, join_words};

/// One invocation's operation, classified from the argument vector.
#[derive(Debug, PartialEq, Eq)]
pub enum Command {
    /// No arguments: print the list.
    List,
    /// Exactly one argument: an unrecognized bare word.
    Unknown(String),
    /// `add`, with the new title (the trailing arguments joined).
    Add(String),
    /// `edit`, with the parsed index and the new title.
    Edit(usize, String),
    /// `edit` whose index argument does not parse as an index: fatal.
    EditBadIndex,
    /// `done`, with a selector.
    Done(TodoPicker),
    /// `undone`, with a selector.
    Undone(TodoPicker),
    /// `delete`, with a selector.
    Delete(TodoPicker),
    /// `delete done`: remove every done item.
    DeleteDone,
    /// Two or more arguments with an unrecognized first word: print usage.
    Usage,
}

/// The mathematical value of a command.
pub enum CmdView {
    List,
    Unknown(Seq<char>),
    Add(Seq<char>),
    Edit(usize, Seq<char>),
    EditBadIndex,
    Done(SelView),
    Undone(SelView),
    Delete(SelView),
    DeleteDone,
    Usage,
}

impl View for Command {
    type V = CmdView;

    open spec fn view(&self) -> CmdView {
        match self {
            Command::List => CmdView::List,
            Command::Unknown(w) => CmdView::Unknown(w@),
            Command::Add(t) => CmdView::Add(t@),
            Command::Edit(i, t) => CmdView::Edit(*i, t@),
            Command::EditBadIndex => CmdView::EditBadIndex,
            Command::Done(p) => CmdView::Done(p@),
            Command::Undone(p) => CmdView::Undone(p@),
            Command::Delete(p) => CmdView::Delete(p@),
            Command::DeleteDone => CmdView::DeleteDone,
            Command::Usage => CmdView::Usage,
        }
    }
}

/// The command an argument vector denotes. No argument lists; a single
/// argument is an unrecognized bare word; `add`, `edit`, `done`, `undone` and
/// `delete` dispatch with their arguments, where `delete` treats a first
/// argument equal to the word `done` as the bulk delete; any other first word
/// asks for the usage text.
pub open spec fn command_spec(a: Seq<Seq<char>>) -> CmdView {
    if a.len() == 0 {
        CmdView::List
    } else if a.len() == 1 {
        CmdView::Unknown(a[0])
    } else if a[0] == "add"@ {
        CmdView::Add(join_spec(a.skip(1)))
    } else if a[0] == "edit"@ {
        match parse_usize_spec(a[1]) {
            Some(n) => CmdView::Edit(n, join_spec(a.skip(2))),
            None => CmdView::EditBadIndex,
        }
    } else if a[0] == "done"@ {
        CmdView::Done(picker_spec(a[1]))
    } else if a[0] == "undone"@ {
        CmdView::Undone(picker_spec(a[1]))
    } else if a[0] == "delete"@ {
        if a[1] == "done"@ {
            CmdView::DeleteDone
        } else {
            CmdView::Delete(picker_spec(a[1]))
        }
    } else {
        CmdView::Usage
    }
}

/// Classifies the argument vector (the arguments after the program name).
pub fn parse_command(args: &Vec<String>) -> (r: Command)
    ensures
        r@ == command_spec(args@.map_values(|s: String| s@)),
{
    let ghost a = args@.map_values(|s: String| s@);
    proof {
        assert(a.len() == args@.len());
    }
    if args.len() == 0 {
        Command::List
    } else if args.len() == 1 {
        Command::Unknown(args[0].clone())
    } else if eq_str(args[0].as_str(), "add") {
        Command::Add(join_words(args, 1))
    } else if eq_str(args[0].as_str(), "edit") {
        match parse_usize_token(args[1].as_str()) {
            Some(n) => Command::Edit(n, join_words(args, 2)),
            None => Command::EditBadIndex,
        }
    } else if eq_str(args[0].as_str(), "done") {
        Command::Done(parse_picker(args[1].clone()))
    } else if eq_str(args[0].as_str(), "undone") {
        Command::Undone(parse_picker(args[1].clone()))
    } else if eq_str(args[0].as_str(), "delete") {
        if eq_str(args[1].as_str(), "done") {
            Command::DeleteDone
        } else {
            Command::Delete(parse_picker(args[1].clone()))
        }
    } else {
        Command::Usage
    }
}

/// What an operation leaves to report.
#[derive(Debug, PartialEq, Eq)]
pub enum Outcome {
    /// Print the list, with no highlight.
    List,
    /// Print the list with the item at this position highlighted.
    Highlight(usize),
    /// Print these removed items struck through, then the remaining list.
    Removed(Vec<Item>),
    /// `edit` with an out-of-range index: nothing changed.
    EditWhat,
    /// A toggle whose selector resolved to nothing: nothing changed.
    DoneWhat,
    /// `delete` whose selector resolved to nothing: nothing changed.
    DeleteWhat,
    /// A bare unrecognized word: report it and print the usage text.
    UnknownWhat(String),
    /// An unrecognized operation word: print the usage text.
    Usage,
    /// `edit` with an unparsable index: fatal; print usage and stop.
    BadIndex,
}

/// The list a command leaves behind.
pub open spec fn apply_spec(items: Seq<ItemView>, c: CmdView) -> Seq<ItemView> {
    match c {
        CmdView::Add(t) => items.push(ItemView { title: t, due: None, done: false }),
        CmdView::Edit(n, t) => if (n as int) < items.len() {
            items.update(
                n as int,
                ItemView {
                    title: if t.len() > 0 {
                        t
                    } else {
                        items[n as int].title
                    },
                    due: None,
                    done: items[n as int].done,
                },
            )
        } else {
            items
        },
        CmdView::Done(sel) => toggle_spec(items, sel, true),
        CmdView::Undone(sel) => toggle_spec(items, sel, false),
        CmdView::Delete(sel) => match resolve_first(sel, items) {
            Some(i) => items.remove(i),
            None => items,
        },
        CmdView::DeleteDone => keep_undone(items),
        _ => items,
    }
}

/// Performs one classified command on the list and says what to report.
/// The list afterwards is exactly `apply_spec` of the list before.
pub fn apply(todos: &mut Vec<Item>, cmd: Command) -> (out: Outcome)
    ensures
        views(final(todos)@) == apply_spec(views(old(todos)@), cmd@),
        ({
            let pre = views(old(todos)@);
            match cmd@ {
                CmdView::List => out == Outcome::List,
                CmdView::Unknown(w) => out matches Outcome::UnknownWhat(ww) && ww@ == w,
                CmdView::Add(t) => out matches Outcome::Highlight(h) && h as int == pre.len(),
                CmdView::Edit(n, t) => if (n as int) < pre.len() {
                    out == Outcome::Highlight(n)
                } else {
                    out == Outcome::EditWhat
                },
                CmdView::EditBadIndex => out == Outcome::BadIndex,
                CmdView::Done(sel) => match resolve_last(sel, pre) {
                    Some(i) => out matches Outcome::Highlight(h) && h as int == i,
                    None => out == Outcome::DoneWhat,
                },
                CmdView::Undone(sel) => match resolve_last(sel, pre) {
                    Some(i) => out matches Outcome::Highlight(h) && h as int == i,
                    None => out == Outcome::DoneWhat,
                },
                CmdView::Delete(sel) => match resolve_first(sel, pre) {
                    Some(i) => out matches Outcome::Removed(v) && views(v@) == seq![pre[i]],
                    None => out == Outcome::DeleteWhat,
                },
                CmdView::DeleteDone => out matches Outcome::Removed(v) && views(v@)
                    == crate::ops::only_done(pre),
                CmdView::Usage => out == Outcome::Usage,
            }
        }),
{
    let ghost pre = views(todos@);
    match cmd {
        Command::List => Outcome::List,
        Command::Unknown(w) => Outcome::UnknownWhat(w),
        Command::Add(t) => {
            crate::ops::add(todos, t, None);
            proof {
                assert(views(todos@).len() == todos@.len());
            }
            Outcome::Highlight(todos.len() - 1)
        },
        Command::Edit(n, t) => {
            if edit(todos, n, t, None) {
                Outcome::Highlight(n)
            } else {
                Outcome::EditWhat
            }
        },
        Command::EditBadIndex => Outcome::BadIndex,
        Command::Done(p) => {
            match done(todos, p) {
                Some(i) => Outcome::Highlight(i),
                None => Outcome::DoneWhat,
            }
        },
        Command::Undone(p) => {
            match undone(todos, p) {
                Some(i) => Outcome::Highlight(i),
                None => Outcome::DoneWhat,
            }
        },
        Command::Delete(p) => {
            match delete(todos, p) {
                Some(it) => {
                    let ghost iv = it@;
                    let mut v: Vec<Item> = Vec::new();
                    v.push(it);
                    proof {
                        assert(views(v@) =~= seq![iv]);
                    }
                    Outcome::Removed(v)
                },
                None => Outcome::DeleteWhat,
            }
        },
        Command::DeleteDone => {
            let removed = delete_done(todos);
            Outcome::Removed(removed)
        },
        Command::Usage => Outcome::Usage,
    }
}

} // verus!
