//! Extended attributes and access control lists of a file, as the long
//! listing shows them.

use vstd::prelude::*;

use crate::color::WHITE;
use crate::display::tree::{END, LEAF};
use crate::text::{pad_left, push_pad_left};

verus! {

/// One entry of an access control list, each part as it is displayed.
#[derive(Clone, Debug)]
pub struct AclText {
    pub kind: String,
    pub name: String,
    pub allow: bool,
    pub perms: String,
    pub flags: String,
}

/// The extended attributes (their names) and the access control list of a file.
#[derive(Clone, Debug)]
pub struct Xattr {
    pub xattr: Option<Vec<String>>,
    pub acl: Option<Vec<AclText>>,
}

/// One line per attribute name: a branch right-aligned in `width`, then the name.
pub open spec fn xattr_line(names: Seq<Seq<char>>, i: int, width: nat) -> Seq<char> {
    "\n"@ + WHITE@ + pad_left(if i == names.len() - 1 { END@ } else { LEAF@ }, width) + " "@ + names[i]
}

pub open spec fn xattr_lines(names: Seq<Seq<char>>, n: int, width: nat) -> Seq<char>
    decreases n,
{
    if n <= 0 {
        seq![]
    } else {
        xattr_lines(names, n - 1, width) + xattr_line(names, n - 1, width)
    }
}

/// One line per entry of the access control list.
pub open spec fn acl_line(a: AclText, width: nat) -> Seq<char> {
    "\n"@ + WHITE@ + pad_left("+"@, width) + " "@ + a.kind@ + ":"@ + a.name@ + " "@
        + (if a.allow { "allow"@ } else { "deny"@ }) + " "@ + a.perms@ + " "@ + a.flags@
}

pub open spec fn acl_lines(acl: Seq<AclText>, n: int, width: nat) -> Seq<char>
    decreases n,
{
    if n <= 0 {
        seq![]
    } else {
        acl_lines(acl, n - 1, width) + acl_line(acl[n - 1], width)
    }
}

fn xattr_fmt(atrs: &Vec<String>, width: usize) -> (r: String)
    requires
        atrs@.len() > 0,
    ensures
        r@ == xattr_lines(atrs@.map_values(|a: String| a@), atrs@.len() as int, width as nat),
{
    let ghost names = atrs@.map_values(|a: String| a@);
    let n = atrs.len();
    let mut out = String::new();
    let mut i: usize = 0;
    while i < n
        invariant
            n == atrs@.len(),
            names == atrs@.map_values(|a: String| a@),
            i <= n,
            out@ == xattr_lines(names, i as int, width as nat),
        decreases n - i,
    {
        out.append("\n");
        out.append(WHITE);
        push_pad_left(&mut out, if i == n - 1 { END } else { LEAF }, width);
        out.append(" ");
        out.append(atrs[i].as_str());
        proof {
            assert(out@ =~= xattr_lines(names, i + 1, width as nat));
        }
        i = i + 1;
    }
    out
}

fn acl_line_str(a: &AclText, width: usize) -> (r: String)
    ensures
        r@ == acl_line(*a, width as nat),
{
    let mut out = String::from_str("\n");
    out.append(WHITE);
    push_pad_left(&mut out, "+", width);
    out.append(" ");
    out.append(a.kind.as_str());
    out.append(":");
    out.append(a.name.as_str());
    out.append(" ");
    out.append(if a.allow { "allow" } else { "deny" });
    out.append(" ");
    out.append(a.perms.as_str());
    out.append(" ");
    out.append(a.flags.as_str());
    proof {
        assert(out@ =~= acl_line(*a, width as nat));
    }
    out
}

fn acl_fmt(atrs: &Vec<AclText>, width: usize) -> (r: String)
    ensures
        r@ == acl_lines(atrs@, atrs@.len() as int, width as nat),
{
    let n = atrs.len();
    let mut out = String::new();
    let mut i: usize = 0;
    while i < n
        invariant
            n == atrs@.len(),
            i <= n,
            out@ == acl_lines(atrs@, i as int, width as nat),
        decreases n - i,
    {
        let line = acl_line_str(&atrs[i], width);
        out.append(line.as_str());
        proof {
            assert(out@ =~= acl_lines(atrs@, i + 1, width as nat));
        }
        i = i + 1;
    }
    out
}

/// The mark after the permissions and, with `detail`, the lines below the
/// entry: `@` with attributes, `+` with only an access control list, a space
/// with neither; nothing at all when no file of the listing has any (`exist`).
pub open spec fn ext_attr_seq(lists: Option<Xattr>, exist: bool, detail: bool, width: nat) -> (Seq<char>, Seq<char>) {
    if !exist {
        (""@, seq![])
    } else {
        match lists {
            Some(Xattr { xattr: Some(x), acl: Some(a) }) => if !detail {
                ("@"@, seq![])
            } else {
                let names = x@.map_values(|s: String| s@);
                ("@"@, xattr_lines(names, names.len() as int, width) + acl_lines(a@, a@.len() as int, width))
            },
            Some(Xattr { xattr: Some(x), acl: None }) => if !detail {
                ("@"@, seq![])
            } else {
                let names = x@.map_values(|s: String| s@);
                ("@"@, xattr_lines(names, names.len() as int, width))
            },
            Some(Xattr { xattr: None, acl: Some(a) }) => if !detail {
                ("+"@, seq![])
            } else {
                ("+"@, acl_lines(a@, a@.len() as int, width))
            },
            _ => (" "@, seq![]),
        }
    }
}

/// Attribute lists that are there are not empty (the listing records none
/// that is).
pub open spec fn xattr_ok(lists: Option<Xattr>) -> bool {
    lists matches Some(xa) ==> (xa.xattr matches Some(x) ==> x@.len() > 0)
}

pub fn ext_attr_fmt(lists: &Option<Xattr>, exist: bool, detail: bool, width: usize) -> (r: (&'static str, String))
    requires
        xattr_ok(*lists),
    ensures
        r.0@ == ext_attr_seq(*lists, exist, detail, width as nat).0,
        r.1@ == ext_attr_seq(*lists, exist, detail, width as nat).1,
{
    if !exist {
        return ("", String::new());
    }
    match lists {
        Some(Xattr { xattr: Some(x), acl: Some(a) }) => {
            if !detail {
                return ("@", String::new());
            }
            let mut ext = xattr_fmt(x, width);
            ext.append(acl_fmt(a, width).as_str());
            ("@", ext)
        },
        Some(Xattr { xattr: Some(x), acl: None }) => {
            if !detail {
                return ("@", String::new());
            }
            ("@", xattr_fmt(x, width))
        },
        Some(Xattr { xattr: None, acl: Some(a) }) => {
            if !detail {
                return ("+", String::new());
            }
            ("+", acl_fmt(a, width))
        },
        _ => (" ", String::new()),
    }
}

} // verus!
