use vstd::prelude::*;
use vstd::string::StringExecFns;

verus! {

/// One todo entry: a title, an optional due date, and a done flag.
#[derive(Debug, Clone, PartialEq, Eq)]
pub struct Item {
    pub title: String,
    pub due: Option<String>,
    pub done: bool,
}

/// The mathematical value of an `Item`: its strings as character sequences.
pub struct ItemView {
    pub title: Seq<char>,
    pub due: Option<Seq<char>>,
    pub done: bool,
}

/// The mathematical value of an optional string.
pub open spec fn opt_view(o: Option<String>) -> Option<Seq<char>> {
    match o {
        Option::Some(d) => Option::Some(d@),
        Option::None => Option::None,
    }
}

impl View for Item {
    type V = ItemView;

    open spec fn view(&self) -> ItemView {
        ItemView { title: self.title@, due: opt_view(self.due), done: self.done }
    }
}

/// The mathematical value of a list of items.
pub open spec fn views(s: Seq<Item>) -> Seq<ItemView> {
    s.map_values(|it: Item| it@)
}

/// The display line of an item: a checkbox, the title, and the due date in
/// parentheses when there is one (with a trailing space when there is none).
pub open spec fn render_spec(iv: ItemView) -> Seq<char> {
    (if iv.done {
        seq!['[', 'x', ']']
    } else {
        seq!['[', ' ', ']']
    }) + seq![' '] + iv.title + seq![' '] + (match iv.due {
        Option::Some(d) => seq!['('] + d + seq![')'],
        Option::None => Seq::empty(),
    })
}

impl Item {
    /// Builds the display line for this item.
    pub fn render(&self) -> (r: String)
        ensures
            r@ == render_spec(self@),
    {
        proof {
            reveal_strlit("[x]");
            reveal_strlit("[ ]");
            reveal_strlit(" ");
            reveal_strlit("(");
            reveal_strlit(")");
        }
        let mut out = String::new();
        if self.done {
            out.append("[x]");
            proof {
                assert(out@ =~= seq!['[', 'x', ']']);
            }
        } else {
            out.append("[ ]");
            proof {
                assert(out@ =~= seq!['[', ' ', ']']);
            }
        }
        out.append(" ");
        out.append(self.title.as_str());
        out.append(" ");
        match &self.due {
            Option::Some(d) => {
                out.append("(");
                out.append(d.as_str());
                out.append(")");
            },
            Option::None => {},
        }
        proof {
            assert(" "@ =~= seq![' ']);
            assert("("@ =~= seq!['(']);
            assert(")"@ =~= seq![')']);
            assert(out@ =~= render_spec(self@));
        }
        out
    }
}

} // verus!
