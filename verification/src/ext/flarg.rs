//! A minimalist parser of command line arguments: flags and options are
//! registered with a builder, then the argument list is parsed against them.

use vstd::prelude::*;

use crate::text::{
    find_char, split_whitespace, starts_with, str_eq, substring, trim, trim_seq, words,
};

verus! {

/// One registered option (one call of `option_with`).
struct Opt {
    values: Vec<String>,
    default: String,
    desc: (String, Option<String>),
}

/// One registered flag (one call of `flag_with`).
struct Flag {
    count: usize,
    desc: (String, Option<String>),
}

/// What a registered flag holds: its names, its description and how often it was found.
pub struct FlagView {
    pub name: Seq<char>,
    pub desc: Option<Seq<char>>,
    pub count: nat,
}

/// What a registered option holds: its names, description, default and the values found.
pub struct OptView {
    pub name: Seq<char>,
    pub desc: Option<Seq<char>>,
    pub default: Seq<char>,
    pub values: Seq<Seq<char>>,
}

/// The abstract state of an `ArgParser`. The two maps are lists of
/// `(alias, index)` entries in insertion order; a later entry for the same
/// alias overrides an earlier one (see `lookup`).
pub struct ArgParserView {
    pub help_head: Option<Seq<char>>,
    pub flags: Seq<FlagView>,
    pub flag_map: Seq<(Seq<char>, nat)>,
    pub options: Seq<OptView>,
    pub option_map: Seq<(Seq<char>, nat)>,
    pub app_path: Option<Seq<char>>,
    pub args: Seq<Seq<char>>,
}

/// An ArgParser instance can be intialized using the builder pattern.
pub struct ArgParser {
    help_head: Option<String>,
    options: Vec<Opt>,
    option_map: Vec<(String, usize)>,
    flags: Vec<Flag>,
    flag_map: Vec<(String, usize)>,
    /// Stores application path.
    pub app_path: Option<String>,
    /// Stores positional arguments.
    pub args: Vec<String>,
}

/// Error types returned by the parser.
pub enum Error {
    /// Returned when the parser detects an unregistered flag, option, or command name.
    InvalidName(String),
    /// Returned when the parser detects an option with a missing value.
    MissingValue(String),
    /// Returned when the command line arguments are not valid unicode strings.
    InvalidUnicode,
}

/// The abstract value of an `Error`.
pub enum ErrorView {
    InvalidName(Seq<char>),
    MissingValue(Seq<char>),
    InvalidUnicode,
}

impl View for Error {
    type V = ErrorView;

    open spec fn view(&self) -> ErrorView {
        match self {
            Error::InvalidName(m) => ErrorView::InvalidName(m@),
            Error::MissingValue(m) => ErrorView::MissingValue(m@),
            Error::InvalidUnicode => ErrorView::InvalidUnicode,
        }
    }
}

pub open spec fn opt_str(o: Option<String>) -> Option<Seq<char>> {
    match o {
        Some(s) => Some(s@),
        None => None,
    }
}

pub open spec fn map_view(m: Seq<(String, usize)>) -> Seq<(Seq<char>, nat)> {
    m.map_values(|e: (String, usize)| (e.0@, e.1 as nat))
}

/// The index that `key` is mapped to: the one of the last entry for it.
pub open spec fn lookup(m: Seq<(Seq<char>, nat)>, key: Seq<char>) -> Option<nat>
    decreases m.len(),
{
    if m.len() == 0 {
        None
    } else if m.last().0 == key {
        Some(m.last().1)
    } else {
        lookup(m.drop_last(), key)
    }
}

/// `m` with every word of `name` mapped to `index`.
pub open spec fn map_aliases(m: Seq<(Seq<char>, nat)>, name: Seq<char>, index: nat) -> Seq<(Seq<char>, nat)> {
    m + words(name).map_values(|w: Seq<char>| (w, index))
}

/// Joins `list` with `sep` between the elements.
pub open spec fn join(list: Seq<Seq<char>>, sep: Seq<char>) -> Seq<char>
    decreases list.len(),
{
    if list.len() == 0 {
        seq![]
    } else if list.len() == 1 {
        list[0]
    } else {
        join(list.drop_last(), sep) + sep + list.last()
    }
}

/// The command line spelling of one alias: `-x` for one character, `--name` otherwise.
pub open spec fn dashed(alias: Seq<char>) -> Seq<char> {
    if alias.len() == 1 { "-"@ + alias } else { "--"@ + alias }
}

/// All aliases of `name` spelled for the command line, separated by `, `.
pub open spec fn dash_seq(name: Seq<char>) -> Seq<char> {
    join(words(name).map_values(|w: Seq<char>| dashed(w)), ", "@)
}

impl ArgParser {
    pub closed spec fn model(&self) -> ArgParserView {
        ArgParserView {
            help_head: opt_str(self.help_head),
            flags: self.flags@.map_values(|f: Flag| FlagView { name: f.desc.0@, desc: opt_str(f.desc.1), count: f.count as nat }),
            flag_map: map_view(self.flag_map@),
            options: self.options@.map_values(|o: Opt| OptView {
                name: o.desc.0@,
                desc: opt_str(o.desc.1),
                default: o.default@,
                values: o.values@.map_values(|v: String| v@),
            }),
            option_map: map_view(self.option_map@),
            app_path: opt_str(self.app_path),
            args: self.args@.map_values(|a: String| a@),
        }
    }

    /// Every entry of the alias maps points at a registered flag or option.
    pub closed spec fn wf(&self) -> bool {
        &&& forall|i: int| 0 <= i < self.flag_map@.len() ==> #[trigger] self.flag_map@[i].1 < self.flags@.len()
        &&& forall|i: int| 0 <= i < self.option_map@.len() ==> #[trigger] self.option_map@[i].1 < self.options@.len()
    }
}

impl View for ArgParser {
    type V = ArgParserView;

    open spec fn view(&self) -> ArgParserView {
        self.model()
    }
}

/// An alias that is mapped points at an entry below the bound that all entries respect.
proof fn lemma_lookup_bound(m: Seq<(Seq<char>, nat)>, key: Seq<char>, bound: nat)
    requires
        forall|i: int| 0 <= i < m.len() ==> #[trigger] m[i].1 < bound,
    ensures
        lookup(m, key) matches Some(i) ==> i < bound,
    decreases m.len(),
{
    if m.len() > 0 {
        assert(m.last().1 < bound);
        assert forall|i: int| 0 <= i < m.drop_last().len() implies #[trigger] m.drop_last()[i].1 < bound by {
            assert(m.drop_last()[i] == m[i]);
        }
        lemma_lookup_bound(m.drop_last(), key, bound);
    }
}

/// Looks `name` up in an alias map.
fn find(map: &Vec<(String, usize)>, name: &str) -> (r: Option<usize>)
    ensures
        match r {
            Some(i) => lookup(map_view(map@), name@) == Some(i as nat),
            None => lookup(map_view(map@), name@) is None,
        },
{
    let ghost mv = map_view(map@);
    let mut j: usize = map.len();
    proof {
        assert(mv.take(j as int) =~= mv);
    }
    while j > 0
        invariant
            j <= map@.len(),
            mv == map_view(map@),
            lookup(mv, name@) == lookup(mv.take(j as int), name@),
        decreases j,
    {
        let ghost t = mv.take(j as int);
        if str_eq(map[j - 1].0.as_str(), name) {
            proof {
                assert(t.last() == mv[j - 1]);
            }
            return Some(map[j - 1].1);
        }
        proof {
            assert(t.last() == mv[j - 1]);
            assert(t.drop_last() =~= mv.take(j - 1));
        }
        j = j - 1;
    }
    None
}

/// Adds every word of `name` to `map`, pointing at `index`.
fn insert_aliases(map: &mut Vec<(String, usize)>, name: &str, index: usize)
    ensures
        map_view(final(map)@) == map_aliases(map_view(old(map)@), name@, index as nat),
        forall|i: int| 0 <= i < final(map)@.len() ==> #[trigger] final(map)@[i].1 == index || (i < old(map)@.len() && final(map)@[i] == old(map)@[i]),
{
    let aliases = split_whitespace(name);
    let ghost ws = aliases@.map_values(|w: String| w@);
    let mut k: usize = 0;
    while k < aliases.len()
        invariant
            k <= aliases@.len(),
            ws == aliases@.map_values(|w: String| w@),
            ws == words(name@),
            map_view(map@) == map_view(old(map)@) + ws.take(k as int).map_values(|w: Seq<char>| (w, index as nat)),
            map@.len() == old(map)@.len() + k,
            forall|i: int| 0 <= i < map@.len() ==> #[trigger] map@[i].1 == index || (i < old(map)@.len() && map@[i] == old(map)@[i]),
        decreases aliases@.len() - k,
    {
        let alias = aliases[k].clone();
        let ghost before = map@;
        map.push((alias, index));
        proof {
            assert(map_view(map@) =~= map_view(before).push((ws[k as int], index as nat)));
            assert(ws.take(k + 1) =~= ws.take(k as int).push(ws[k as int]));
            assert(map_view(map@) =~= map_view(old(map)@) + ws.take(k + 1).map_values(|w: Seq<char>| (w, index as nat)));
        }
        k = k + 1;
    }
    proof {
        assert(ws.take(aliases@.len() as int) =~= ws);
    }
}

/// Builds `-x` for a one-character alias and `--name` otherwise, for every
/// alias in `s`, separated by `, `.
fn dash(s: &str) -> (r: String)
    ensures
        r@ == dash_seq(s@),
{
    let aliases = split_whitespace(s);
    let ghost ws = aliases@.map_values(|w: String| w@);
    let ghost ds = ws.map_values(|w: Seq<char>| dashed(w));
    let mut out = String::new();
    let mut k: usize = 0;
    while k < aliases.len()
        invariant
            k <= aliases@.len(),
            ws == aliases@.map_values(|w: String| w@),
            ds == ws.map_values(|w: Seq<char>| dashed(w)),
            out@ == join(ds.take(k as int), ", "@),
        decreases aliases@.len() - k,
    {
        if k > 0 {
            out.append(", ");
        }
        if aliases[k].as_str().unicode_len() == 1 {
            out.append("-");
        } else {
            out.append("--");
        }
        out.append(aliases[k].as_str());
        proof {
            let t = ds.take(k + 1);
            assert(t.drop_last() =~= ds.take(k as int));
            assert(t.last() == ds[k as int]);
            if k == 0 {
                assert(join(t, ", "@) == t[0]);
            }
        }
        k = k + 1;
    }
    proof {
        assert(ds.take(aliases@.len() as int) =~= ds);
    }
    out
}

// ------------------------------------------------------------------
// What parsing does, stated over the abstract state.

/// Records one more occurrence of flag `i` (the count stops at `usize::MAX`).
pub open spec fn bump(v: ArgParserView, i: nat) -> ArgParserView {
    let f = v.flags[i as int];
    ArgParserView {
        flags: v.flags.update(i as int, FlagView {
            name: f.name,
            desc: f.desc,
            count: if f.count < usize::MAX { f.count + 1 } else { f.count },
        }),
        ..v
    }
}

/// Records `value` for option `i`.
pub open spec fn push_value(v: ArgParserView, i: nat, value: Seq<char>) -> ArgParserView {
    let o = v.options[i as int];
    ArgParserView {
        options: v.options.update(i as int, OptView {
            name: o.name,
            desc: o.desc,
            default: o.default,
            values: o.values.push(value),
        }),
        ..v
    }
}

/// Records a positional argument.
pub open spec fn push_arg(v: ArgParserView, a: Seq<char>) -> ArgParserView {
    ArgParserView { args: v.args.push(a), ..v }
}

pub open spec fn starts(s: Seq<char>, prefix: Seq<char>) -> bool {
    prefix.len() <= s.len() && s.take(prefix.len() as int) == prefix
}

/// Number of characters of `s` before the first `c` (all of them when there is none).
pub open spec fn before_char(s: Seq<char>, c: char) -> nat
    decreases s.len(),
{
    if s.len() == 0 || s[0] == c {
        0
    } else {
        1 + before_char(s.drop_first(), c)
    }
}

/// Number of leading `-` characters of `s`.
pub open spec fn lead_dashes(s: Seq<char>) -> nat
    decreases s.len(),
{
    if s.len() == 0 || s[0] != '-' {
        0
    } else {
        1 + lead_dashes(s.drop_first())
    }
}

pub open spec fn not_recognised(arg: Seq<char>) -> Seq<char> {
    arg + " is not a recognised flag or option name"@
}

pub open spec fn short_missing(c: Seq<char>, arg: Seq<char>) -> Seq<char> {
    if arg.len() > 2 {
        "missing value for '"@ + c + "' in "@ + arg
    } else {
        "missing value for "@ + arg
    }
}

pub open spec fn short_invalid(c: Seq<char>, arg: Seq<char>) -> Seq<char> {
    if arg.len() > 2 {
        "'"@ + c + "' in "@ + arg + " is not a recognised flag or option name"@
    } else {
        not_recognised(arg)
    }
}

/// A `--name` argument; `tail` is what follows it. On success, the new
/// state and how many arguments of `tail` it used as a value.
pub open spec fn long_step(v: ArgParserView, arg: Seq<char>, tail: Seq<Seq<char>>) -> Result<(ArgParserView, nat), ErrorView> {
    let name = arg.skip(2);
    match lookup(v.flag_map, name) {
        Some(i) => Ok((bump(v, i), 0)),
        None => match lookup(v.option_map, name) {
            Some(i) => if tail.len() == 0 {
                Err(ErrorView::MissingValue("missing value for "@ + arg))
            } else {
                Ok((push_value(v, i, tail[0]), 1))
            },
            None => Err(ErrorView::InvalidName(not_recognised(arg))),
        },
    }
}

/// The characters of a `-xyz` argument from position `k` on, each a flag
/// or an option that takes the next argument of `tail` as its value.
pub open spec fn short_from(v: ArgParserView, arg: Seq<char>, k: nat, tail: Seq<Seq<char>>) -> Result<(ArgParserView, nat), ErrorView>
    decreases arg.len() - k,
{
    if k >= arg.len() {
        Ok((v, 0))
    } else {
        let c = arg.subrange(k as int, k + 1 as int);
        match lookup(v.flag_map, c) {
            Some(i) => short_from(bump(v, i), arg, k + 1, tail),
            None => match lookup(v.option_map, c) {
                Some(i) => if tail.len() == 0 {
                    Err(ErrorView::MissingValue(short_missing(c, arg)))
                } else {
                    match short_from(push_value(v, i, tail[0]), arg, k + 1, tail.drop_first()) {
                        Ok((w, n)) => Ok((w, n + 1)),
                        Err(e) => Err(e),
                    }
                },
                None => Err(ErrorView::InvalidName(short_invalid(c, arg))),
            },
        }
    }
}

/// Where the characters of a `-xyz` argument from position `k` on leave the
/// parser, and how many arguments of `tail` they used as values: they stop
/// at the first character that fails, which changes nothing.
pub open spec fn short_state(v: ArgParserView, arg: Seq<char>, k: nat, tail: Seq<Seq<char>>) -> (ArgParserView, nat)
    decreases arg.len() - k,
{
    if k >= arg.len() {
        (v, 0)
    } else {
        let c = arg.subrange(k as int, k + 1 as int);
        match lookup(v.flag_map, c) {
            Some(i) => short_state(bump(v, i), arg, k + 1, tail),
            None => match lookup(v.option_map, c) {
                Some(i) => if tail.len() == 0 {
                    (v, 0)
                } else {
                    let r = short_state(push_value(v, i, tail[0]), arg, k + 1, tail.drop_first());
                    (r.0, r.1 + 1)
                },
                None => (v, 0),
            },
        }
    }
}

/// A `name=value` argument (`name` with its leading dashes).
pub open spec fn equals_step(v: ArgParserView, arg: Seq<char>) -> Result<ArgParserView, ErrorView> {
    let e = before_char(arg, '=');
    let name = arg.take(e as int);
    let value = arg.skip(e + 1 as int);
    let key = name.skip(lead_dashes(name) as int);
    match lookup(v.option_map, key) {
        Some(i) => if value.len() == 0 {
            Err(ErrorView::MissingValue("missing value for "@ + name))
        } else {
            Ok(push_value(v, i, value))
        },
        None => Err(ErrorView::InvalidName(name + " is not a recognised option name"@)),
    }
}

/// Parsing of the argument list `rest`, starting from state `v`.
pub open spec fn run(v: ArgParserView, rest: Seq<Seq<char>>) -> Result<ArgParserView, ErrorView>
    decreases rest.len(),
{
    if rest.len() == 0 {
        Ok(v)
    } else {
        let arg = rest[0];
        let tail = rest.drop_first();
        if arg == "--"@ {
            Ok(ArgParserView { args: v.args + tail, ..v })
        } else if starts(arg, "--"@) {
            if arg.contains('=') {
                match equals_step(v, arg) {
                    Ok(w) => run(w, tail),
                    Err(e) => Err(e),
                }
            } else {
                match long_step(v, arg, tail) {
                    Ok((w, n)) => if n <= tail.len() { run(w, tail.skip(n as int)) } else { Ok(w) },
                    Err(e) => Err(e),
                }
            }
        } else if arg == "-"@ {
            run(push_arg(v, arg), tail)
        } else if starts(arg, "-"@) {
            if arg.contains('=') {
                match equals_step(v, arg) {
                    Ok(w) => run(w, tail),
                    Err(e) => Err(e),
                }
            } else {
                match short_from(v, arg, 1, tail) {
                    Ok((w, n)) => if n <= tail.len() { run(w, tail.skip(n as int)) } else { Ok(w) },
                    Err(e) => Err(e),
                }
            }
        } else {
            run(push_arg(v, arg), tail)
        }
    }
}

/// Where parsing `rest` from state `v` leaves the parser, and what is left
/// unread: everything is read on success; on failure, the effects of the
/// arguments before the failing one stay, and reading stops after it (and
/// after the values that its characters took before one failed).
pub open spec fn run_final(v: ArgParserView, rest: Seq<Seq<char>>) -> (ArgParserView, Seq<Seq<char>>)
    decreases rest.len(),
{
    if rest.len() == 0 {
        (v, rest)
    } else {
        let arg = rest[0];
        let tail = rest.drop_first();
        if arg == "--"@ {
            (ArgParserView { args: v.args + tail, ..v }, seq![])
        } else if starts(arg, "--"@) {
            if arg.contains('=') {
                match equals_step(v, arg) {
                    Ok(w) => run_final(w, tail),
                    Err(_) => (v, tail),
                }
            } else {
                match long_step(v, arg, tail) {
                    Ok((w, n)) => if n <= tail.len() { run_final(w, tail.skip(n as int)) } else { (w, seq![]) },
                    Err(_) => (v, tail),
                }
            }
        } else if arg == "-"@ {
            run_final(push_arg(v, arg), tail)
        } else if starts(arg, "-"@) {
            if arg.contains('=') {
                match equals_step(v, arg) {
                    Ok(w) => run_final(w, tail),
                    Err(_) => (v, tail),
                }
            } else {
                match short_from(v, arg, 1, tail) {
                    Ok((w, n)) => if n <= tail.len() { run_final(w, tail.skip(n as int)) } else { (w, seq![]) },
                    Err(_) => {
                        let p = short_state(v, arg, 1, tail);
                        (p.0, tail.skip(p.1 as int))
                    },
                }
            }
        } else {
            run_final(push_arg(v, arg), tail)
        }
    }
}

// ------------------------------------------------------------------

/// The input argument vector, read as a stream.
struct ArgStream {
    args: Vec<String>,
    index: usize,
}

impl ArgStream {
    spec fn rest(&self) -> Seq<Seq<char>> {
        self.args@.map_values(|a: String| a@).skip(self.index as int)
    }

    spec fn inv(&self) -> bool {
        self.index <= self.args@.len()
    }

    fn new(args: Vec<String>) -> (r: ArgStream)
        ensures
            r.inv(),
            r.rest() == args@.map_values(|a: String| a@),
            r.args@.map_values(|a: String| a@) == args@.map_values(|a: String| a@),
    {
        let r = ArgStream { args, index: 0 };
        proof {
            assert(r.rest() =~= r.args@.map_values(|a: String| a@));
        }
        r
    }

    fn has_next(&self) -> (r: bool)
        requires
            self.inv(),
        ensures
            r == (self.rest().len() > 0),
    {
        self.index < self.args.len()
    }

    fn next(&mut self) -> (r: String)
        requires
            old(self).inv(),
            old(self).rest().len() > 0,
        ensures
            final(self).inv(),
            r@ == old(self).rest()[0],
            final(self).rest() == old(self).rest().drop_first(),
            final(self).args == old(self).args,
    {
        let n = self.args.len();
        proof {
            assert(self.rest().len() == self.args@.len() - self.index);
        }
        self.index = self.index + 1;
        let r = self.args[self.index - 1].clone();
        proof {
            assert(self.rest() =~= old(self).rest().drop_first());
        }
        r
    }
}

impl Error {
    /// The text that the error reads as (its `Display` form).
    pub fn message(&self) -> (r: String)
        ensures
            r@ == match self@ {
                ErrorView::InvalidName(m) => "Error: "@ + m,
                ErrorView::MissingValue(m) => "Error: "@ + m,
                ErrorView::InvalidUnicode => "Error: arguments are not valid unicode strings"@,
            },
    {
        match self {
            Error::InvalidName(m) => {
                let mut s = String::from_str("Error: ");
                s.append(m.as_str());
                s
            },
            Error::MissingValue(m) => {
                let mut s = String::from_str("Error: ");
                s.append(m.as_str());
                s
            },
            Error::InvalidUnicode => String::from_str("Error: arguments are not valid unicode strings"),
        }
    }
}

/// The state after registering option `name` with its default and description.
pub open spec fn add_option(v: ArgParserView, name: Seq<char>, default: Seq<char>, description: Seq<char>) -> ArgParserView {
    ArgParserView {
        options: v.options.push(OptView { name, desc: Some(description), default, values: seq![] }),
        option_map: map_aliases(v.option_map, name, v.options.len()),
        ..v
    }
}

/// The state after registering flag `name` with its description.
pub open spec fn add_flag(v: ArgParserView, name: Seq<char>, description: Seq<char>) -> ArgParserView {
    ArgParserView {
        flags: v.flags.push(FlagView { name, desc: Some(description), count: 0 }),
        flag_map: map_aliases(v.flag_map, name, v.flags.len()),
        ..v
    }
}

/// The state of a parser with nothing registered.
pub open spec fn empty_parser() -> ArgParserView {
    ArgParserView {
        help_head: None,
        flags: seq![],
        flag_map: seq![],
        options: seq![],
        option_map: seq![],
        app_path: None,
        args: seq![],
    }
}

/// The state after setting the help head text.
pub open spec fn set_help(v: ArgParserView, text: Seq<char>) -> ArgParserView {
    ArgParserView { help_head: Some(text), ..v }
}

impl ArgParser {
    /// Creates a new ArgParser instance, with nothing registered and no
    /// application path (the caller that reads the environment sets it).
    pub fn new() -> (r: ArgParser)
        ensures
            r.wf(),
            r@ == empty_parser(),
    {
        let r = ArgParser {
            help_head: None,
            options: Vec::new(),
            option_map: Vec::new(),
            flags: Vec::new(),
            flag_map: Vec::new(),
            app_path: None,
            args: Vec::new(),
        };
        proof {
            assert(r@.flags =~= seq![]);
            assert(r@.options =~= seq![]);
            assert(r@.flag_map =~= seq![]);
            assert(r@.option_map =~= seq![]);
            assert(r@.args =~= seq![]);
        }
        r
    }

    /// Sets the parser's helptext string.
    pub fn helptext(self, text: &str) -> (r: Self)
        requires
            self.wf(),
        ensures
            r.wf(),
            r@ == set_help(self@, text@),
    {
        let mut p = self;
        p.help_head = Some(String::from_str(text));
        p
    }

    /// Registers a new option with description.
    pub fn option_with(self, name: &str, default: &str, description: &str) -> (r: Self)
        requires
            self.wf(),
        ensures
            r.wf(),
            r@ == add_option(self@, name@, default@, description@),
    {
        let mut p = self;
        let ghost before = p@;
        p.options.push(Opt {
            values: Vec::new(),
            default: String::from_str(default),
            desc: (String::from_str(name), Some(String::from_str(description))),
        });
        let index = p.options.len() - 1;
        insert_aliases(&mut p.option_map, name, index);
        proof {
            let o = p.options@.last();
            assert(o.values@.map_values(|v: String| v@) =~= Seq::<Seq<char>>::empty());
            assert(p@.options =~= before.options.push(OptView {
                name: name@,
                desc: Some(description@),
                default: default@,
                values: seq![],
            }));
            assert(p@.flags =~= before.flags);
        }
        p
    }

    /// Registers a new flag with description.
    pub fn flag_with(self, name: &str, description: &str) -> (r: Self)
        requires
            self.wf(),
        ensures
            r.wf(),
            r@ == add_flag(self@, name@, description@),
    {
        let mut p = self;
        let ghost before = p@;
        p.flags.push(Flag {
            count: 0,
            desc: (String::from_str(name), Some(String::from_str(description))),
        });
        let index = p.flags.len() - 1;
        insert_aliases(&mut p.flag_map, name, index);
        proof {
            assert(p@.flags =~= before.flags.push(FlagView { name: name@, desc: Some(description@), count: 0 }));
            assert(p@.options =~= before.options);
        }
        p
    }

    /// Returns the value of the named option: the last value found, or its default.
    pub fn value(&self, name: &str) -> (r: String)
        requires
            self.wf(),
            lookup(self@.option_map, name@) is Some,
        ensures
            ({
                let o = self@.options[lookup(self@.option_map, name@)->0 as int];
                r@ == if o.values.len() > 0 { o.values.last() } else { o.default }
            }),
    {
        proof {
            lemma_lookup_bound(self@.option_map, name@, self.options@.len() as nat);
        }
        let index = find(&self.option_map, name).unwrap();
        let n = self.options[index].values.len();
        if n > 0 {
            return self.options[index].values[n - 1].clone();
        }
        self.options[index].default.clone()
    }

    /// Returns the number of times the named flag or option was found.
    pub fn count(&self, name: &str) -> (r: usize)
        requires
            self.wf(),
            lookup(self@.flag_map, name@) is Some || lookup(self@.option_map, name@) is Some,
        ensures
            r == match lookup(self@.flag_map, name@) {
                Some(i) => self@.flags[i as int].count,
                None => self@.options[lookup(self@.option_map, name@)->0 as int].values.len(),
            },
    {
        proof {
            lemma_lookup_bound(self@.flag_map, name@, self.flags@.len() as nat);
            lemma_lookup_bound(self@.option_map, name@, self.options@.len() as nat);
        }
        if let Some(index) = find(&self.flag_map, name) {
            return self.flags[index].count;
        }
        let index = find(&self.option_map, name).unwrap();
        self.options[index].values.len()
    }

    /// Returns `true` if the named flag or option was found.
    pub fn found(&self, name: &str) -> (r: bool)
        requires
            self.wf(),
            lookup(self@.flag_map, name@) is Some || lookup(self@.option_map, name@) is Some,
        ensures
            r == (match lookup(self@.flag_map, name@) {
                Some(i) => self@.flags[i as int].count,
                None => self@.options[lookup(self@.option_map, name@)->0 as int].values.len(),
            } > 0),
    {
        self.count(name) > 0
    }

    /// The application path.
    pub fn app_path(&self) -> (r: &Option<String>)
        ensures
            opt_str(*r) == self@.app_path,
    {
        &self.app_path
    }

    /// Sets the application path (the first item of the process's arguments).
    pub fn set_app_path(&mut self, path: Option<String>)
        requires
            old(self).wf(),
        ensures
            final(self).wf(),
            final(self)@ == (ArgParserView { app_path: opt_str(path), ..old(self)@ }),
    {
        self.app_path = path;
    }

    /// The positional arguments.
    pub fn positional(&self) -> (r: &Vec<String>)
        ensures
            r@.map_values(|a: String| a@) == self@.args,
    {
        &self.args
    }

    /// Whether `name` is a registered flag or option name.
    pub fn is_registered(&self, name: &str) -> (r: bool)
        ensures
            r == (lookup(self@.flag_map, name@) is Some || lookup(self@.option_map, name@) is Some),
    {
        find(&self.flag_map, name).is_some() || find(&self.option_map, name).is_some()
    }

    /// Whether `name` is a registered option name.
    pub fn has_option(&self, name: &str) -> (r: bool)
        ensures
            r == lookup(self@.option_map, name@) is Some,
    {
        find(&self.option_map, name).is_some()
    }

    /// One more occurrence of flag `i`.
    fn bump_flag(&mut self, i: usize)
        requires
            old(self).wf(),
            i < old(self)@.flags.len(),
        ensures
            final(self).wf(),
            final(self)@ == bump(old(self)@, i as nat),
    {
        let c = self.flags[i].count;
        let c2 = if c < usize::MAX { c + 1 } else { c };
        let mut f = self.flags.remove(i);
        f.count = c2;
        self.flags.insert(i, f);
        proof {
            assert(self@.flags =~= bump(old(self)@, i as nat).flags);
        }
    }

    /// One more value for option `i`.
    fn push_option_value(&mut self, i: usize, value: String)
        requires
            old(self).wf(),
            i < old(self)@.options.len(),
        ensures
            final(self).wf(),
            final(self)@ == push_value(old(self)@, i as nat, value@),
    {
        let mut o = self.options.remove(i);
        let ghost ov = o.values@;
        o.values.push(value);
        self.options.insert(i, o);
        proof {
            assert(o.values@.map_values(|v: String| v@) =~= ov.map_values(|v: String| v@).push(value@));
            assert(self@.options =~= push_value(old(self)@, i as nat, value@).options);
        }
    }

    fn push_positional(&mut self, a: String)
        requires
            old(self).wf(),
        ensures
            final(self).wf(),
            final(self)@ == push_arg(old(self)@, a@),
    {
        self.args.push(a);
        proof {
            assert(self@.args =~= old(self)@.args.push(a@));
        }
    }
}

/// `r` with `c` more arguments counted as used.
pub open spec fn add_used(r: Result<(ArgParserView, nat), ErrorView>, c: nat) -> Result<(ArgParserView, nat), ErrorView> {
    match r {
        Ok((w, n)) => Ok((w, n + c)),
        Err(e) => Err(e),
    }
}

proof fn lemma_before_char(s: Seq<char>, c: char, i: int)
    requires
        0 <= i < s.len(),
        s[i] == c,
        forall|k: int| 0 <= k < i ==> #[trigger] s[k] != c,
    ensures
        before_char(s, c) == i,
    decreases i,
{
    if i > 0 {
        assert forall|k: int| 0 <= k < i - 1 implies #[trigger] s.drop_first()[k] != c by {
            assert(s.drop_first()[k] == s[k + 1]);
        }
        assert(s.drop_first()[i - 1] == s[i]);
        lemma_before_char(s.drop_first(), c, i - 1);
    }
}

proof fn lemma_lead_dashes(s: Seq<char>, i: int)
    requires
        0 <= i <= s.len(),
        forall|k: int| 0 <= k < i ==> #[trigger] s[k] == '-',
        i == s.len() || s[i] != '-',
    ensures
        lead_dashes(s) == i,
    decreases i,
{
    if i > 0 {
        assert forall|k: int| 0 <= k < i - 1 implies #[trigger] s.drop_first()[k] == '-' by {
            assert(s.drop_first()[k] == s[k + 1]);
        }
        if i < s.len() {
            assert(s.drop_first()[i - 1] == s[i]);
        }
        lemma_lead_dashes(s.drop_first(), i - 1);
    }
}

fn concat2(a: &str, b: &str) -> (r: String)
    ensures
        r@ == a@ + b@,
{
    let mut s = String::from_str(a);
    s.append(b);
    s
}

impl ArgParser {
    fn handle_long_opt(&mut self, arg: &str, stream: &mut ArgStream) -> (r: Result<(), Error>)
        requires
            old(self).wf(),
            old(stream).inv(),
            starts(arg@, "--"@),
        ensures
            final(self).wf(),
            final(stream).inv(),
            final(stream).args == old(stream).args,
            match (long_step(old(self)@, arg@, old(stream).rest()), r) {
                (Ok((w, n)), Ok(_)) => final(self)@ == w && n <= old(stream).rest().len()
                    && final(stream).rest() == old(stream).rest().skip(n as int),
                (Err(e), Err(x)) => x@ == e,
                _ => false,
            },
            r is Err ==> final(self)@ == old(self)@ && final(stream).rest() == old(stream).rest(),
    {
        proof {
            reveal_strlit("--");
        }
        let n = arg.unicode_len();
        let name = arg.substring_char(2, n);
        proof {
            assert(name@ =~= arg@.skip(2));
            lemma_lookup_bound(self@.flag_map, name@, self.flags@.len() as nat);
            lemma_lookup_bound(self@.option_map, name@, self.options@.len() as nat);
        }
        if let Some(index) = find(&self.flag_map, name) {
            self.bump_flag(index);
            proof {
                assert(stream.rest().skip(0) =~= stream.rest());
            }
            return Ok(());
        }
        if let Some(index) = find(&self.option_map, name) {
            if !stream.has_next() {
                return Err(Error::MissingValue(concat2("missing value for ", arg)));
            }
            let ghost rest = stream.rest();
            let value = stream.next();
            self.push_option_value(index, value);
            proof {
                assert(rest.skip(1) =~= rest.drop_first());
            }
            return Ok(());
        }
        Err(Error::InvalidName(concat2(arg, " is not a recognised flag or option name")))
    }

    fn handle_short_opt(&mut self, arg: &str, stream: &mut ArgStream) -> (r: Result<(), Error>)
        requires
            old(self).wf(),
            old(stream).inv(),
        ensures
            final(self).wf(),
            final(stream).inv(),
            final(stream).args == old(stream).args,
            match (short_from(old(self)@, arg@, 1, old(stream).rest()), r) {
                (Ok((w, n)), Ok(_)) => final(self)@ == w && n <= old(stream).rest().len()
                    && final(stream).rest() == old(stream).rest().skip(n as int),
                (Err(e), Err(x)) => x@ == e,
                _ => false,
            },
            short_state(old(self)@, arg@, 1, old(stream).rest()).1 <= old(stream).rest().len(),
            final(self)@ == short_state(old(self)@, arg@, 1, old(stream).rest()).0,
            final(stream).rest() == old(stream).rest().skip(short_state(old(self)@, arg@, 1, old(stream).rest()).1 as int),
    {
        let n = arg.unicode_len();
        let ghost rest0 = stream.rest();
        let ghost mut used: nat = 0;
        let mut k: usize = 1;
        proof {
            assert(rest0.skip(0) =~= rest0);
        }
        while k < n
            invariant
                n == arg@.len(),
                1 <= k,
                self.wf(),
                stream.inv(),
                stream.args == old(stream).args,
                rest0 == old(stream).rest(),
                used <= rest0.len(),
                stream.rest() == rest0.skip(used as int),
                short_from(old(self)@, arg@, 1, rest0)
                    == add_used(short_from(self@, arg@, k as nat, stream.rest()), used),
                short_state(old(self)@, arg@, 1, rest0).0 == short_state(self@, arg@, k as nat, stream.rest()).0,
                short_state(old(self)@, arg@, 1, rest0).1 == short_state(self@, arg@, k as nat, stream.rest()).1 + used,
            decreases n - k,
        {
            let c = arg.substring_char(k, k + 1);
            proof {
                lemma_lookup_bound(self@.flag_map, c@, self.flags@.len() as nat);
                lemma_lookup_bound(self@.option_map, c@, self.options@.len() as nat);
            }
            if let Some(index) = find(&self.flag_map, c) {
                self.bump_flag(index);
            } else if let Some(index) = find(&self.option_map, c) {
                if !stream.has_next() {
                    let msg = if n > 2 {
                        let mut m = concat2("missing value for '", c);
                        m.append("' in ");
                        m.append(arg);
                        m
                    } else {
                        concat2("missing value for ", arg)
                    };
                    return Err(Error::MissingValue(msg));
                }
                let ghost rest = stream.rest();
                let value = stream.next();
                self.push_option_value(index, value);
                proof {
                    assert(rest0.skip(used + 1 as int) =~= rest0.skip(used as int).drop_first());
                    used = used + 1;
                }
            } else {
                let msg = if n > 2 {
                    let mut m = concat2("'", c);
                    m.append("' in ");
                    m.append(arg);
                    m.append(" is not a recognised flag or option name");
                    m
                } else {
                    concat2(arg, " is not a recognised flag or option name")
                };
                return Err(Error::InvalidName(msg));
            }
            k = k + 1;
        }
        Ok(())
    }

    fn handle_equals_opt(&mut self, arg: &str) -> (r: Result<(), Error>)
        requires
            old(self).wf(),
            arg@.contains('='),
        ensures
            final(self).wf(),
            match (equals_step(old(self)@, arg@), r) {
                (Ok(w), Ok(_)) => final(self)@ == w,
                (Err(e), Err(x)) => x@ == e,
                _ => false,
            },
            r is Err ==> final(self)@ == old(self)@,
    {
        let n = arg.unicode_len();
        let e = match find_char(arg, '=') {
            Some(e) => e,
            None => {
                proof {
                    let k = choose|k: int| 0 <= k < arg@.len() && arg@[k] == '=';
                }
                return Err(Error::InvalidUnicode);
            },
        };
        proof {
            lemma_before_char(arg@, '=', e as int);
        }
        let name = arg.substring_char(0, e);
        let value = arg.substring_char(e + 1, n);
        let mut d: usize = 0;
        while d < e && name.get_char(d) == '-'
            invariant
                name@ == arg@.subrange(0, e as int),
                e == name@.len(),
                d <= e,
                forall|k: int| 0 <= k < d ==> #[trigger] name@[k] == '-',
            decreases e - d,
        {
            d = d + 1;
        }
        let key = name.substring_char(d, e);
        proof {
            lemma_lead_dashes(name@, d as int);
            assert(name@ =~= arg@.take(e as int));
            assert(value@ =~= arg@.skip(e + 1));
            assert(key@ =~= name@.skip(d as int));
            lemma_lookup_bound(self@.option_map, key@, self.options@.len() as nat);
        }
        if let Some(index) = find(&self.option_map, key) {
            if value.unicode_len() == 0 {
                return Err(Error::MissingValue(concat2("missing value for ", name)));
            }
            self.push_option_value(index, String::from_str(value));
            return Ok(());
        }
        Err(Error::InvalidName(concat2(name, " is not a recognised option name")))
    }

    fn parse_argstream(&mut self, stream: &mut ArgStream) -> (r: Result<(), Error>)
        requires
            old(self).wf(),
            old(stream).inv(),
        ensures
            final(self).wf(),
            final(stream).inv(),
            match (run(old(self)@, old(stream).rest()), r) {
                (Ok(w), Ok(_)) => final(self)@ == w,
                (Err(e), Err(x)) => x@ == e,
                _ => false,
            },
            final(self)@ == run_final(old(self)@, old(stream).rest()).0,
            final(stream).rest() == run_final(old(self)@, old(stream).rest()).1,
            r is Ok ==> final(stream).rest().len() == 0,
    {
        while stream.has_next()
            invariant
                self.wf(),
                stream.inv(),
                run(self@, stream.rest()) == run(old(self)@, old(stream).rest()),
                run_final(self@, stream.rest()) == run_final(old(self)@, old(stream).rest()),
            decreases stream.rest().len(),
        {
            let ghost v0 = self@;
            let ghost rest = stream.rest();
            let arg = stream.next();
            let ghost tail = stream.rest();
            proof {
                reveal_strlit("--");
                reveal_strlit("-");
            }
            if str_eq(arg.as_str(), "--") {
                while stream.has_next()
                    invariant
                        self.wf(),
                        stream.inv(),
                        (ArgParserView { args: self@.args + stream.rest(), ..self@ })
                            == (ArgParserView { args: v0.args + tail, ..v0 }),
                    decreases stream.rest().len(),
                {
                    let ghost r1 = stream.rest();
                    let a = stream.next();
                    self.push_positional(a);
                    proof {
                        assert(self@.args + stream.rest() =~= v0.args + tail) by {
                            assert(r1 =~= seq![r1[0]] + stream.rest());
                            assert(self@.args + stream.rest() =~= (self@.args.drop_last() + r1));
                        }
                    }
                }
                proof {
                    assert(self@.args + stream.rest() =~= self@.args);
                }
            } else if starts_with(arg.as_str(), "--") {
                let res = if find_char(arg.as_str(), '=').is_some() {
                    self.handle_equals_opt(arg.as_str())
                } else {
                    self.handle_long_opt(arg.as_str(), stream)
                };
                if let Err(x) = res {
                    return Err(x);
                }
            } else if str_eq(arg.as_str(), "-") {
                self.push_positional(arg);
            } else if starts_with(arg.as_str(), "-") {
                let res = if find_char(arg.as_str(), '=').is_some() {
                    self.handle_equals_opt(arg.as_str())
                } else {
                    self.handle_short_opt(arg.as_str(), stream)
                };
                if let Err(x) = res {
                    return Err(x);
                }
            } else {
                self.push_positional(arg);
            }
        }
        Ok(())
    }

    /// Parses the command line arguments `args` (the program name excluded).
    pub fn parse(&mut self, args: Vec<String>) -> (r: Result<(), Error>)
        requires
            old(self).wf(),
        ensures
            final(self).wf(),
            match (run(old(self)@, args@.map_values(|a: String| a@)), r) {
                (Ok(w), Ok(_)) => final(self)@ == w,
                (Err(e), Err(x)) => x@ == e,
                _ => false,
            },
            final(self)@ == run_final(old(self)@, args@.map_values(|a: String| a@)).0,
    {
        let mut stream = ArgStream::new(args);
        self.parse_argstream(&mut stream)
    }
}

/// The lines that the help text gives for one flag.
pub open spec fn flag_help(f: FlagView) -> Seq<char> {
    match f.desc {
        Some(d) => "  "@ + dash_seq(f.name) + "\n         "@ + d + "\n"@,
        None => "  "@ + dash_seq(f.name) + "\n"@ + "\n"@,
    }
}

/// The lines that the help text gives for one option.
pub open spec fn opt_help(o: OptView) -> Seq<char> {
    match o.desc {
        Some(d) => "  "@ + dash_seq(o.name) + "="@ + o.default + "\n         "@ + d + " (default: "@
            + o.default + ")"@ + "\n"@,
        None => "  "@ + dash_seq(o.name) + "="@ + o.default + "\n         default: "@ + o.default + "\n"@,
    }
}

/// The concatenation of `parts`.
pub open spec fn concat(parts: Seq<Seq<char>>) -> Seq<char>
    decreases parts.len(),
{
    if parts.len() == 0 {
        seq![]
    } else {
        concat(parts.drop_last()) + parts.last()
    }
}

/// The whole help text: the trimmed head, then every flag, then every option.
pub open spec fn help_text(v: ArgParserView) -> Seq<char> {
    trim_seq(v.help_head->0) + "\n"@ + concat(v.flags.map_values(|f: FlagView| flag_help(f)))
        + concat(v.options.map_values(|o: OptView| opt_help(o)))
}

impl ArgParser {
    /// The help text: the head text, then each flag and each option with
    /// its aliases and description.
    pub fn help(&self) -> (r: String)
        requires
            self@.help_head is Some,
        ensures
            r@ == help_text(self@),
    {
        let head = match &self.help_head {
            Some(h) => h,
            None => {
                return String::new();
            },
        };
        let mut out = trim(head.as_str());
        out.append("\n");
        let ghost fs = self@.flags.map_values(|f: FlagView| flag_help(f));
        let ghost start = out@;
        let mut k: usize = 0;
        while k < self.flags.len()
            invariant
                k <= self.flags@.len(),
                fs == self@.flags.map_values(|f: FlagView| flag_help(f)),
                out@ == start + concat(fs.take(k as int)),
            decreases self.flags@.len() - k,
        {
            let f = &self.flags[k];
            let ghost before = out@;
            out.append("  ");
            out.append(dash(f.desc.0.as_str()).as_str());
            match &f.desc.1 {
                Some(d) => {
                    out.append("\n         ");
                    out.append(d.as_str());
                    out.append("\n");
                },
                None => {
                    out.append("\n");
                    out.append("\n");
                },
            }
            proof {
                assert(fs.take(k + 1).drop_last() =~= fs.take(k as int));
                assert(fs[k as int] == flag_help(self@.flags[k as int]));
                assert(out@ =~= before + fs[k as int]);
            }
            k = k + 1;
        }
        proof {
            assert(fs.take(self.flags@.len() as int) =~= fs);
        }
        let ghost os = self@.options.map_values(|o: OptView| opt_help(o));
        let ghost mid = out@;
        let mut k: usize = 0;
        while k < self.options.len()
            invariant
                k <= self.options@.len(),
                os == self@.options.map_values(|o: OptView| opt_help(o)),
                out@ == mid + concat(os.take(k as int)),
            decreases self.options@.len() - k,
        {
            let o = &self.options[k];
            let ghost before = out@;
            out.append("  ");
            out.append(dash(o.desc.0.as_str()).as_str());
            out.append("=");
            out.append(o.default.as_str());
            match &o.desc.1 {
                Some(d) => {
                    out.append("\n         ");
                    out.append(d.as_str());
                    out.append(" (default: ");
                    out.append(o.default.as_str());
                    out.append(")");
                    out.append("\n");
                },
                None => {
                    out.append("\n         default: ");
                    out.append(o.default.as_str());
                    out.append("\n");
                },
            }
            proof {
                assert(os.take(k + 1).drop_last() =~= os.take(k as int));
                assert(os[k as int] == opt_help(self@.options[k as int]));
                assert(out@ =~= before + os[k as int]);
            }
            k = k + 1;
        }
        proof {
            assert(os.take(self.options@.len() as int) =~= os);
        }
        out
    }
}

/// What parsing leaves unchanged: the help text, the names and
/// descriptions of flags and options, their defaults, and the alias maps.
pub open spec fn same_registration(a: ArgParserView, b: ArgParserView) -> bool {
    &&& a.help_head == b.help_head
    &&& a.flag_map == b.flag_map
    &&& a.option_map == b.option_map
    &&& a.app_path == b.app_path
    &&& a.flags.len() == b.flags.len()
    &&& a.options.len() == b.options.len()
    &&& forall|i: int| 0 <= i < a.flags.len() ==> (#[trigger] a.flags[i]).name == b.flags[i].name
        && a.flags[i].desc == b.flags[i].desc
    &&& forall|i: int| 0 <= i < a.options.len() ==> (#[trigger] a.options[i]).name == b.options[i].name
        && a.options[i].desc == b.options[i].desc && a.options[i].default == b.options[i].default
}

pub open spec fn maps_in_range(v: ArgParserView) -> bool {
    &&& forall|i: int| 0 <= i < v.flag_map.len() ==> #[trigger] v.flag_map[i].1 < v.flags.len()
    &&& forall|i: int| 0 <= i < v.option_map.len() ==> #[trigger] v.option_map[i].1 < v.options.len()
}

impl ArgParser {
    /// A well-formed parser maps every alias to a registered flag or option.
    pub proof fn lemma_wf_maps_in_range(&self)
        requires
            self.wf(),
        ensures
            maps_in_range(self@),
    {
        assert forall|i: int| 0 <= i < self@.flag_map.len() implies #[trigger] self@.flag_map[i].1 < self@.flags.len() by {
            assert(self@.flag_map[i].1 == self.flag_map@[i].1 as nat);
        }
        assert forall|i: int| 0 <= i < self@.option_map.len() implies #[trigger] self@.option_map[i].1 < self@.options.len() by {
            assert(self@.option_map[i].1 == self.option_map@[i].1 as nat);
        }
    }
}

proof fn lemma_same_trans(a: ArgParserView, b: ArgParserView, c: ArgParserView)
    requires
        same_registration(a, b),
        same_registration(b, c),
    ensures
        same_registration(a, c),
{
    assert forall|i: int| 0 <= i < a.flags.len() implies (#[trigger] a.flags[i]).name == c.flags[i].name
        && a.flags[i].desc == c.flags[i].desc by {
        assert(b.flags[i].name == c.flags[i].name);
    }
    assert forall|i: int| 0 <= i < a.options.len() implies (#[trigger] a.options[i]).name == c.options[i].name
        && a.options[i].desc == c.options[i].desc && a.options[i].default == c.options[i].default by {
        assert(b.options[i].name == c.options[i].name);
    }
}

proof fn lemma_bump_same(v: ArgParserView, i: nat)
    requires
        maps_in_range(v),
        i < v.flags.len(),
    ensures
        same_registration(v, bump(v, i)),
        maps_in_range(bump(v, i)),
{
    let w = bump(v, i);
    assert forall|k: int| 0 <= k < v.flags.len() implies (#[trigger] v.flags[k]).name == w.flags[k].name
        && v.flags[k].desc == w.flags[k].desc by {
        if k == i {
        } else {
            assert(w.flags[k] == v.flags[k]);
        }
    }
}

proof fn lemma_push_value_same(v: ArgParserView, i: nat, value: Seq<char>)
    requires
        maps_in_range(v),
        i < v.options.len(),
    ensures
        same_registration(v, push_value(v, i, value)),
        maps_in_range(push_value(v, i, value)),
{
    let w = push_value(v, i, value);
    assert forall|k: int| 0 <= k < v.options.len() implies (#[trigger] v.options[k]).name == w.options[k].name
        && v.options[k].desc == w.options[k].desc && v.options[k].default == w.options[k].default by {
        if k == i {
        } else {
            assert(w.options[k] == v.options[k]);
        }
    }
}

proof fn lemma_maps_in_range_same(a: ArgParserView, b: ArgParserView)
    requires
        maps_in_range(a),
        same_registration(a, b),
    ensures
        maps_in_range(b),
{
}

proof fn lemma_short_registration(v: ArgParserView, arg: Seq<char>, k: nat, tail: Seq<Seq<char>>)
    requires
        maps_in_range(v),
    ensures
        short_from(v, arg, k, tail) matches Ok((w, n)) ==> same_registration(v, w) && n <= tail.len(),
    decreases arg.len() - k,
{
    if k < arg.len() {
        let c = arg.subrange(k as int, k + 1 as int);
        lemma_lookup_bound(v.flag_map, c, v.flags.len());
        lemma_lookup_bound(v.option_map, c, v.options.len());
        match lookup(v.flag_map, c) {
            Some(i) => {
                lemma_bump_same(v, i);
                lemma_short_registration(bump(v, i), arg, k + 1, tail);
                if let Ok((w, n)) = short_from(v, arg, k, tail) {
                    lemma_same_trans(v, bump(v, i), w);
                }
            },
            None => match lookup(v.option_map, c) {
                Some(i) => if tail.len() > 0 {
                    let v2 = push_value(v, i, tail[0]);
                    lemma_push_value_same(v, i, tail[0]);
                    lemma_short_registration(v2, arg, k + 1, tail.drop_first());
                    if let Ok((w, n)) = short_from(v, arg, k, tail) {
                        lemma_same_trans(v, v2, w);
                    }
                },
                None => {},
            },
        }
    }
}

/// Parsing changes only the counts of flags, the values of options and the
/// positional arguments: what was registered stays as it was.
pub proof fn lemma_parse_keeps_registration(v: ArgParserView, rest: Seq<Seq<char>>)
    requires
        maps_in_range(v),
    ensures
        run(v, rest) matches Ok(w) ==> same_registration(v, w),
    decreases rest.len(),
{
    if rest.len() > 0 {
        let arg = rest[0];
        let tail = rest.drop_first();
        if arg == "--"@ {
        } else if starts(arg, "--"@) || (arg != "-"@ && starts(arg, "-"@)) {
            if arg.contains('=') {
                let e = before_char(arg, '=');
                let name = arg.take(e as int);
                let key = name.skip(lead_dashes(name) as int);
                lemma_lookup_bound(v.option_map, key, v.options.len());
                if let Ok(w) = equals_step(v, arg) {
                    let i = lookup(v.option_map, key)->0;
                    lemma_push_value_same(v, i, arg.skip(e + 1 as int));
                    lemma_parse_keeps_registration(w, tail);
                    if let Ok(x) = run(w, tail) {
                        lemma_same_trans(v, w, x);
                    }
                }
            } else if starts(arg, "--"@) {
                lemma_lookup_bound(v.flag_map, arg.skip(2), v.flags.len());
                lemma_lookup_bound(v.option_map, arg.skip(2), v.options.len());
                if let Ok((w, n)) = long_step(v, arg, tail) {
                    match lookup(v.flag_map, arg.skip(2)) {
                        Some(i) => lemma_bump_same(v, i),
                        None => lemma_push_value_same(v, lookup(v.option_map, arg.skip(2))->0, tail[0]),
                    }
                    lemma_parse_keeps_registration(w, tail.skip(n as int));
                    if let Ok(x) = run(w, tail.skip(n as int)) {
                        lemma_same_trans(v, w, x);
                    }
                }
            } else {
                lemma_short_registration(v, arg, 1, tail);
                if let Ok((w, n)) = short_from(v, arg, 1, tail) {
                    lemma_maps_in_range_same(v, w);
                    lemma_parse_keeps_registration(w, tail.skip(n as int));
                    if let Ok(x) = run(w, tail.skip(n as int)) {
                        lemma_same_trans(v, w, x);
                    }
                }
            }
        } else {
            lemma_parse_keeps_registration(push_arg(v, arg), tail);
            if let Ok(x) = run(push_arg(v, arg), tail) {
                lemma_same_trans(v, push_arg(v, arg), x);
            }
        }
    }
}

} // verus!
