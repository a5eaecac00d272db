use vstd::prelude::*;
use vstd::string::StringExecFns;
use crate::args::Args;
use crate::icon::{get_icon, icon_spec};
use crate::node::{AccessError, EntryKind, Node};
use crate::sizefmt::{format_size, size_str};

verus! {

/// The icon part of a label: the entry's glyph and a space, or nothing
/// when icons are disabled.
pub open spec fn icon_part(n: Node, args: Args) -> Seq<char> {
    if args.no_icon {
        Seq::empty()
    } else {
        icon_spec(n.name@, n.kind is Directory) + seq![' ']
    }
}

/// The symlink part of a label: an arrow and the resolved target, or
/// nothing when the entry is no symlink or resolution failed.
pub open spec fn link_part(n: Node) -> Seq<char> {
    if n.kind is Symlink {
        match n.link_target {
            Some(t) => seq![' ', '-', '>', ' '] + t@,
            None => Seq::empty(),
        }
    } else {
        Seq::empty()
    }
}

/// The size part of a label: the bracketed human-readable size, only
/// when sizes are requested, the entry is a plain file, and the size
/// could be read.
pub open spec fn size_part(n: Node, args: Args) -> Seq<char> {
    if args.size && n.kind is File {
        match n.size {
            Some(b) => seq![' ', '['] + size_str(b) + seq![']'],
            None => Seq::empty(),
        }
    } else {
        Seq::empty()
    }
}

/// The full label of one entry: icon, basename, symlink target, size.
pub open spec fn label_spec(n: Node, args: Args) -> Seq<char> {
    icon_part(n, args) + n.name@ + link_part(n) + size_part(n, args)
}

/// Formats one entry's label. A pure function of the entry and the
/// configuration.
pub fn format_node_label(entry: &Node, args: &Args) -> (r: String)
    ensures
        r@ == label_spec(*entry, *args),
{
    let mut s = String::new();
    if !args.no_icon {
        let ic = get_icon(entry.name.as_str(), entry.kind == EntryKind::Directory);
        s.append(ic);
        proof {
            reveal_strlit(" ");
            assert(" "@ =~= seq![' ']);
        }
        s.append(" ");
    }
    s.append(entry.name.as_str());
    if entry.kind == EntryKind::Symlink {
        match &entry.link_target {
            Some(t) => {
                proof {
                    reveal_strlit(" -> ");
                    assert(" -> "@ =~= seq![' ', '-', '>', ' ']);
                }
                s.append(" -> ");
                s.append(t.as_str());
            },
            None => {},
        }
    }
    if args.size && entry.kind == EntryKind::File {
        match entry.size {
            Some(b) => {
                proof {
                    reveal_strlit(" [");
                    assert(" ["@ =~= seq![' ', '[']);
                    reveal_strlit("]");
                    assert("]"@ =~= seq![']']);
                }
                s.append(" [");
                let fs = format_size(b);
                s.append(fs.as_str());
                s.append("]");
            },
            None => {},
        }
    }
    proof {
        assert(s@ =~= label_spec(*entry, *args));
    }
    s
}

/// The human-readable cause shown for an unreadable directory.
pub open spec fn error_msg_spec(e: AccessError) -> Seq<char> {
    match e {
        AccessError::PermissionDenied => "Permission Denied"@,
        AccessError::NotFound => "Not Found"@,
        AccessError::Access => "Access Error"@,
        AccessError::Unknown => "Unknown Error"@,
    }
}

/// The label of an error notice: the cause in brackets.
pub open spec fn error_label_spec(e: AccessError) -> Seq<char> {
    seq!['['] + error_msg_spec(e) + seq![']']
}

/// The message for an unreadable directory's cause.
pub fn error_message(e: &AccessError) -> (r: &'static str)
    ensures
        r@ == error_msg_spec(*e),
{
    match e {
        AccessError::PermissionDenied => "Permission Denied",
        AccessError::NotFound => "Not Found",
        AccessError::Access => "Access Error",
        AccessError::Unknown => "Unknown Error",
    }
}

/// Formats the label of an error notice.
pub fn format_error_label(e: &AccessError) -> (r: String)
    ensures
        r@ == error_label_spec(*e),
{
    proof {
        reveal_strlit("[");
        assert("["@ =~= seq!['[']);
        reveal_strlit("]");
        assert("]"@ =~= seq![']']);
    }
    let mut s = String::new();
    s.append("[");
    s.append(error_message(e));
    s.append("]");
    proof {
        assert(s@ =~= error_label_spec(*e));
    }
    s
}

} // verus!
