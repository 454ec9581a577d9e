//! The command line of the program: which flags it knows, and how the
//! parsed flags become the settings of a listing.

use vstd::prelude::*;

use crate::ext::flarg::{
    add_flag, add_option, empty_parser, lookup, set_help, ArgParser, ArgParserView,
};
use crate::text::{clone_strings, parse_usize, parse_usize_spec, str_eq};

verus! {

/// The settings of one listing.
#[derive(Debug, Clone, Copy)]
pub struct Flags {
    pub all: bool,
    pub one: bool,
    pub long: bool,
    pub size_sort: bool,
    pub time_sort: bool,
    pub name_sort: bool,
    pub full: bool,
    pub follow: bool,
    pub bytes: bool,
    pub ctime: bool,
    pub access: bool,
    pub create: bool,
    pub dir_only: bool,
    pub group: bool,
    pub octal: bool,
    pub inode: bool,
    pub xattr: bool,
    pub lvl: usize,
    pub list_format: bool,
    pub tree_format: bool,
}

/// Whether the flag or option `name` was found at least once
/// (false for a name that is not registered).
#[verifier::opaque]
pub open spec fn found_in(v: ArgParserView, name: Seq<char>) -> bool {
    match lookup(v.flag_map, name) {
        Some(i) => v.flags[i as int].count > 0,
        None => match lookup(v.option_map, name) {
            Some(i) => v.options[i as int].values.len() > 0,
            None => false,
        },
    }
}

/// The value of option `name`: the last one found, else its default
/// (empty for a name that is not registered).
#[verifier::opaque]
pub open spec fn value_in(v: ArgParserView, name: Seq<char>) -> Seq<char> {
    match lookup(v.option_map, name) {
        Some(i) => {
            let o = v.options[i as int];
            if o.values.len() > 0 { o.values.last() } else { o.default }
        },
        None => seq![],
    }
}

/// Number of characters after the last `/` of `p` (all of them when there is none).
pub open spec fn last_segment_len(p: Seq<char>) -> nat
    decreases p.len(),
{
    if p.len() == 0 || p.last() == '/' {
        0
    } else {
        1 + last_segment_len(p.drop_last())
    }
}

/// The part of `p` after its last `/` (the program's name, for a path).
#[verifier::opaque]
pub open spec fn base_name(p: Seq<char>) -> Seq<char> {
    p.skip(p.len() - last_segment_len(p))
}

/// The depth of the tree listing: 2 for `-2`, 3 for `-3`, else the value of
/// `-T` when it reads as a number, else 9.
#[verifier::opaque]
pub open spec fn tree_depth(v: ArgParserView) -> nat {
    if found_in(v, "2"@) {
        2
    } else if found_in(v, "3"@) {
        3
    } else {
        match parse_usize_spec(value_in(v, "T"@)) {
            Some(n) => n,
            None => 9,
        }
    }
}

/// What the name the program was called by switches on:
/// `(long format, all entries, tree format, directories only)`.
#[verifier::opaque]
pub open spec fn name_switches(base: Seq<char>) -> (bool, bool, bool, bool) {
    (
        base == "ll"@ || base == "lla"@ || base == "lal"@ || base == "ltl"@ || base == "llt"@,
        base == "la"@ || base == "lla"@ || base == "lal"@,
        base == "lt"@ || base == "tree"@ || base == "ltl"@ || base == "llt"@,
        base == "lsd"@,
    )
}

/// What the name the program was called by switches on.
fn switches_of(b: &str) -> (r: (bool, bool, bool, bool))
    ensures
        r == name_switches(b@),
{
    reveal(name_switches);
    proof {
        reveal_strlit("ll");
        reveal_strlit("la");
        reveal_strlit("lla");
        reveal_strlit("lal");
        reveal_strlit("lt");
        reveal_strlit("tree");
        reveal_strlit("ltl");
        reveal_strlit("llt");
        reveal_strlit("lsd");
        assert("ll"@ =~= seq!['l', 'l']);
        assert("la"@ =~= seq!['l', 'a']);
        assert("lt"@ =~= seq!['l', 't']);
        assert("lla"@ =~= seq!['l', 'l', 'a']);
        assert("lal"@ =~= seq!['l', 'a', 'l']);
        assert("ltl"@ =~= seq!['l', 't', 'l']);
        assert("llt"@ =~= seq!['l', 'l', 't']);
        assert("lsd"@ =~= seq!['l', 's', 'd']);
        assert("tree"@ =~= seq!['t', 'r', 'e', 'e']);
    }
    if str_eq(b, "ll") {
        (true, false, false, false)
    } else if str_eq(b, "la") {
        (false, true, false, false)
    } else if str_eq(b, "lla") || str_eq(b, "lal") {
        (true, true, false, false)
    } else if str_eq(b, "lt") || str_eq(b, "tree") {
        (false, false, true, false)
    } else if str_eq(b, "ltl") || str_eq(b, "llt") {
        (true, false, true, false)
    } else if str_eq(b, "lsd") {
        (false, false, false, true)
    } else {
        (false, false, false, false)
    }
}

/// The settings that the parsed command line `v` asks for.
pub open spec fn flags_from(v: ArgParserView) -> Flags {
    let by_name = app_switches_of(v);
    let long = found_in(v, "l"@) || by_name.0;
    let all = found_in(v, "a"@) || by_name.1;
    let tree = found_in(v, "2"@) || found_in(v, "3"@) || found_in(v, "T"@) || by_name.2;
    let dir_only = found_in(v, "d"@) || by_name.3;
    let size_sort = found_in(v, "S"@);
    let time_sort = found_in(v, "t"@);
    let list = long || size_sort || time_sort || found_in(v, "i"@) || found_in(v, "g"@)
        || found_in(v, "@"@) || found_in(v, "b"@) || found_in(v, "O"@) || found_in(v, "L"@)
        || found_in(v, "c"@) || found_in(v, "u"@) || found_in(v, "U"@) || found_in(v, "f"@);
    let compact = found_in(v, "C"@) || found_in(v, "1"@);
    Flags {
        all,
        one: found_in(v, "1"@),
        long,
        size_sort: size_sort && !compact,
        time_sort: time_sort && !compact,
        name_sort: found_in(v, "N"@),
        full: found_in(v, "f"@),
        follow: found_in(v, "L"@),
        bytes: found_in(v, "b"@),
        ctime: found_in(v, "c"@),
        access: found_in(v, "u"@),
        create: found_in(v, "U"@),
        dir_only,
        group: found_in(v, "g"@),
        octal: found_in(v, "O"@),
        inode: found_in(v, "i"@),
        xattr: found_in(v, "@"@),
        lvl: tree_depth(v) as usize,
        list_format: list && !compact,
        tree_format: tree,
    }
}

/// The program was called by the name `n` (its path after the last `/`).
pub open spec fn called_as(v: ArgParserView, n: Seq<char>) -> bool {
    v.app_path matches Some(p) && base_name(p) == n
}

/// Each setting follows its own flag letter (and the names the program can
/// be called by): `-a` lists dot entries, `-l` the long format, `-2`, `-3`
/// and `-T` a tree, `-d` directories only, `-S` and `-t` sort by size and
/// time unless `-C` or `-1` asks for columns, each long-format flag turns
/// the long listing on unless columns are asked for, and so on.
pub proof fn lemma_settings_follow_letters(v: ArgParserView)
    ensures
        ({
            let fl = flags_from(v);
            let compact = found_in(v, "C"@) || found_in(v, "1"@);
            &&& fl.all == (found_in(v, "a"@) || called_as(v, "la"@) || called_as(v, "lla"@) || called_as(v, "lal"@))
            &&& fl.long == (found_in(v, "l"@) || called_as(v, "ll"@) || called_as(v, "lla"@) || called_as(v, "lal"@)
                || called_as(v, "ltl"@) || called_as(v, "llt"@))
            &&& fl.tree_format == (found_in(v, "2"@) || found_in(v, "3"@) || found_in(v, "T"@) || called_as(v, "lt"@)
                || called_as(v, "tree"@) || called_as(v, "ltl"@) || called_as(v, "llt"@))
            &&& fl.dir_only == (found_in(v, "d"@) || called_as(v, "lsd"@))
            &&& fl.one == found_in(v, "1"@)
            &&& fl.size_sort == (found_in(v, "S"@) && !compact)
            &&& fl.time_sort == (found_in(v, "t"@) && !compact)
            &&& fl.name_sort == found_in(v, "N"@)
            &&& fl.full == found_in(v, "f"@)
            &&& fl.follow == found_in(v, "L"@)
            &&& fl.bytes == found_in(v, "b"@)
            &&& fl.ctime == found_in(v, "c"@)
            &&& fl.access == found_in(v, "u"@)
            &&& fl.create == found_in(v, "U"@)
            &&& fl.group == found_in(v, "g"@)
            &&& fl.octal == found_in(v, "O"@)
            &&& fl.inode == found_in(v, "i"@)
            &&& fl.xattr == found_in(v, "@"@)
            &&& fl.list_format ==> !compact
            &&& (!compact && (fl.long || found_in(v, "S"@) || found_in(v, "t"@) || fl.inode || fl.group || fl.xattr
                || fl.bytes || fl.octal || fl.follow || fl.ctime || fl.access || fl.create || fl.full)) ==> fl.list_format
            &&& found_in(v, "2"@) ==> fl.lvl == 2
            &&& !found_in(v, "2"@) && found_in(v, "3"@) ==> fl.lvl == 3
        }),
{
    reveal(name_switches);
    reveal(tree_depth);
}

/// The state of the parser that `args_parser` builds.
pub open spec fn args_parser_view() -> ArgParserView {
    let v = set_help(empty_parser(), "USAGE:\n\tmls [options] [--] [file ...]\nOPTIONS:"@);
    let v = add_flag(v, "a"@, "Include directory entries whose names begin with a dot (`.`)."@);
    let v = add_flag(v, "d"@, "List of directories only."@);
    let v = add_flag(v, "1"@, "List files one entry per line."@);
    let v = add_flag(v, "C"@, "List files in the multi-column format. (default)"@);
    let v = add_flag(v, "l"@, "List files in the long format."@);
    let v = add_flag(v, "S"@, "Sort by size. \t\t\t\t\t\t\t(long format)"@);
    let v = add_flag(v, "t"@, "Sort by time. \t\t\t\t\t\t\t(long format)"@);
    let v = add_flag(v, "N"@, "Sort by name. \t\t\t\t\t\t\t(all formats)"@);
    let v = add_flag(v, "u"@, "Use time of last access. \t\t\t\t\t(long format)"@);
    let v = add_flag(v, "U"@, "Use time when file was created. \t\t\t\t(long format)"@);
    let v = add_flag(v, "c"@, "Use time when file status was last changed. \t\t\t(long format)"@);
    let v = add_flag(v, "g"@, "Display file group name. \t\t\t\t\t(long format)"@);
    let v = add_flag(v, "b h"@, "Display file sizes in bytes. \t\t\t\t\t(long format)"@);
    let v = add_flag(v, "i"@, "Display file serial number <inode>. \t\t\t\t(long format)"@);
    let v = add_flag(v, "O"@, "Display file permission in octal format. \t\t\t(long format)"@);
    let v = add_flag(v, "@"@, "Display file extended attributes. \t\t\t\t(long format)"@);
    let v = add_flag(v, "L"@, "Display file information pointed by the symbolic link. \t(long format)"@);
    let v = add_flag(v, "f"@, "Display absolute path for symbolic link. \t\t\t(long format)"@);
    let v = add_flag(v, "help"@, "Display list of command-line options."@);
    let v = add_flag(v, "2"@, "Recurse into directories as a tree. Limit the depth 2."@);
    let v = add_flag(v, "3"@, "Recurse into directories as a tree. Limit the depth 3."@);
    add_option(v, "T"@, "9"@, "Recurse into directories as a tree. DEPTH - limit the depth of recursion."@)
}

/// The parser of the program's command line, with every flag and option registered.
pub fn args_parser() -> (r: ArgParser)
    ensures
        r.wf(),
        r@ == args_parser_view(),
{
    ArgParser::new()
        .helptext("USAGE:\n\tmls [options] [--] [file ...]\nOPTIONS:")
        .flag_with("a", "Include directory entries whose names begin with a dot (`.`).")
        .flag_with("d", "List of directories only.")
        .flag_with("1", "List files one entry per line.")
        .flag_with("C", "List files in the multi-column format. (default)")
        .flag_with("l", "List files in the long format.")
        .flag_with("S", "Sort by size. \t\t\t\t\t\t\t(long format)")
        .flag_with("t", "Sort by time. \t\t\t\t\t\t\t(long format)")
        .flag_with("N", "Sort by name. \t\t\t\t\t\t\t(all formats)")
        .flag_with("u", "Use time of last access. \t\t\t\t\t(long format)")
        .flag_with("U", "Use time when file was created. \t\t\t\t(long format)")
        .flag_with("c", "Use time when file status was last changed. \t\t\t(long format)")
        .flag_with("g", "Display file group name. \t\t\t\t\t(long format)")
        .flag_with("b h", "Display file sizes in bytes. \t\t\t\t\t(long format)")
        .flag_with("i", "Display file serial number <inode>. \t\t\t\t(long format)")
        .flag_with("O", "Display file permission in octal format. \t\t\t(long format)")
        .flag_with("@", "Display file extended attributes. \t\t\t\t(long format)")
        .flag_with("L", "Display file information pointed by the symbolic link. \t(long format)")
        .flag_with("f", "Display absolute path for symbolic link. \t\t\t(long format)")
        .flag_with("help", "Display list of command-line options.")
        .flag_with("2", "Recurse into directories as a tree. Limit the depth 2.")
        .flag_with("3", "Recurse into directories as a tree. Limit the depth 3.")
        .option_with("T", "9", "Recurse into directories as a tree. DEPTH - limit the depth of recursion.")
}

/// The part of `p` after its last `/`.
fn base_of(p: &str) -> (r: &str)
    ensures
        r@ == base_name(p@),
{
    reveal(base_name);
    let n = p.unicode_len();
    let mut j: usize = n;
    proof {
        assert(p@.take(n as int) =~= p@);
    }
    while j > 0 && p.get_char(j - 1) != '/'
        invariant
            n == p@.len(),
            j <= n,
            last_segment_len(p@) == (n - j) + last_segment_len(p@.take(j as int)),
        decreases j,
    {
        proof {
            assert(p@.take(j as int).drop_last() =~= p@.take(j - 1));
        }
        j = j - 1;
    }
    proof {
        assert(p@.take(n as int) =~= p@);
    }
    p.substring_char(j, n)
}

/// Whether the flag or option `name` was found (false when not registered).
fn found_any(p: &ArgParser, name: &str) -> (r: bool)
    requires
        p.wf(),
    ensures
        r == found_in(p@, name@),
{
    reveal(found_in);
    if p.is_registered(name) {
        p.found(name)
    } else {
        false
    }
}

/// The depth of the tree listing that the parsed command line asks for.
fn depth_of(parser: &ArgParser) -> (r: usize)
    requires
        parser.wf(),
    ensures
        r == tree_depth(parser@),
{
    reveal(value_in);
    reveal(tree_depth);
    if found_any(parser, "2") {
        2
    } else if found_any(parser, "3") {
        3
    } else {
        let t = if parser.has_option("T") {
            parser.value("T")
        } else {
            String::new()
        };
        match parse_usize(t.as_str()) {
            Some(n) => n,
            None => 9,
        }
    }
}

/// What the name the program was called by switches on, when it is known.
pub open spec fn app_switches_of(v: ArgParserView) -> (bool, bool, bool, bool) {
    match v.app_path {
        Some(p) => name_switches(base_name(p)),
        None => (false, false, false, false),
    }
}

fn app_switches(parser: &ArgParser) -> (r: (bool, bool, bool, bool))
    ensures
        r == app_switches_of(parser@),
{
    match parser.app_path() {
        Some(p) => switches_of(base_of(p.as_str())),
        None => (false, false, false, false),
    }
}

/// The settings that the parsed command line of `parser` asks for.
fn flags_of(parser: &ArgParser) -> (r: Flags)
    requires
        parser.wf(),
    ensures
        r == flags_from(parser@),
{
    let lvl = depth_of(parser);
    let sw = app_switches(parser);
    let long = found_any(parser, "l") || sw.0;
    let all = found_any(parser, "a") || sw.1;
    let tree = found_any(parser, "2") || found_any(parser, "3") || found_any(parser, "T") || sw.2;
    let dir_only = found_any(parser, "d") || sw.3;
    let size_sort = found_any(parser, "S");
    let time_sort = found_any(parser, "t");
    let one = found_any(parser, "1");
    let name_sort = found_any(parser, "N");
    let full = found_any(parser, "f");
    let follow = found_any(parser, "L");
    let bytes = found_any(parser, "b");
    let ctime = found_any(parser, "c");
    let access = found_any(parser, "u");
    let create = found_any(parser, "U");
    let group = found_any(parser, "g");
    let inode = found_any(parser, "i");
    let xattr = found_any(parser, "@");
    let octal = found_any(parser, "O");
    let list = long || size_sort || time_sort || inode || group || xattr || bytes || octal
        || follow || ctime || access || create || full;
    let compact = found_any(parser, "C") || one;
    Flags {
        all,
        one,
        long,
        size_sort: size_sort && !compact,
        time_sort: time_sort && !compact,
        name_sort,
        full,
        follow,
        bytes,
        ctime,
        access,
        create,
        dir_only,
        group,
        octal,
        inode,
        xattr,
        lvl,
        list_format: list && !compact,
        tree_format: tree,
    }
}

/// The settings that the parsed command line of `parser` asks for, and the
/// paths to list (`.` when none was given).
pub fn args_init(parser: &ArgParser) -> (r: (Flags, Vec<String>))
    requires
        parser.wf(),
    ensures
        r.0 == flags_from(parser@),
        r.1@.map_values(|a: String| a@) == if parser@.args.len() > 0 {
            parser@.args
        } else {
            seq![seq!['.']]
        },
{
    let fl = flags_of(parser);
    let dirs = if parser.positional().len() > 0 {
        clone_strings(parser.positional())
    } else {
        let mut d = Vec::new();
        let dot = String::from_str(".");
        d.push(dot);
        proof {
            reveal_strlit(".");
            assert(dot@ =~= seq!['.']);
            assert(d@.map_values(|a: String| a@) =~= seq![dot@]);
        }
        d
    };
    proof {
        assert(dirs@.map_values(|a: String| a@) =~= if parser@.args.len() > 0 {
            parser@.args
        } else {
            seq![seq!['.']]
        });
    }
    (fl, dirs)
}

} // verus!
