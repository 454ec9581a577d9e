use mls::args::Flags;
use mls::color::{BLUE_L, GREEN, RED, RESET, WHITE, YEAR};
use mls::display::grid::{grid_size, print as grid_print};
use mls::display::list::{line_fmt, print as list_print};
use mls::display::tree::{
    branch_name, print as tree_print, root_entry, root_flags, sub_trunk, tree_key, tree_level, tree_list, Dir,
    within_depth, END, HOLLOW, LEAF, TRUNK,
};
use mls::file::{File, FileLine};
use mls::listing::{
    file_vec_print, folder_title, missing_message, read_error_message, standalone_entry,
};
use mls::sort::{sort_files, SortKey};
use mls::termsize::cvt;
use mls::Width;

fn flags() -> Flags {
    Flags {
        all: false,
        one: false,
        long: false,
        size_sort: false,
        time_sort: false,
        name_sort: false,
        full: false,
        follow: false,
        bytes: false,
        ctime: false,
        access: false,
        create: false,
        dir_only: false,
        group: false,
        octal: false,
        inode: false,
        xattr: false,
        lvl: 9,
        list_format: false,
        tree_format: false,
    }
}

fn line(size: u64, time: u64) -> Option<Box<FileLine>> {
    Some(Box::new(FileLine {
        time,
        size,
        size_str: size.to_string(),
        size_suf: String::new(),
        user: "alice".to_string(),
        group: String::new(),
        inode: String::new(),
        perm: "P".to_string(),
        lnk: false,
        attr: None,
    }))
}

fn entry(sname: &str, ext: &str, dir: bool, size: u64, time: u64) -> File {
    File {
        sname: sname.to_string(),
        name: sname.to_string(),
        ext: ext.to_string(),
        len: sname.chars().count() + 3,
        dir,
        line: line(size, time),
    }
}

fn names(v: &[File]) -> Vec<String> {
    v.iter().map(|f| f.sname.clone()).collect()
}

fn strings(v: &[&str]) -> Vec<String> {
    v.iter().map(|s| s.to_string()).collect()
}

#[test]
fn default_order_directories_extension_name() {
    let files = vec![
        entry("b.rs", "4a_rs", false, 1, 1),
        entry("a.txt", "4b_txt", false, 1, 1),
        entry("z", "", true, 1, 1),
        entry("c", "", true, 1, 1),
        entry("a.rs", "4a_rs", false, 1, 1),
    ];
    let sorted = sort_files(files, SortKey::Kind);
    assert_eq!(names(&sorted), strings(&["c", "z", "a.rs", "b.rs", "a.txt"]));
}

#[test]
fn size_order_is_stable() {
    let files = vec![
        entry("x", "", false, 5, 0),
        entry("y", "", false, 2, 0),
        entry("d", "", true, 9, 0),
        entry("w", "", false, 5, 0),
        entry("v", "", false, 2, 0),
    ];
    let sorted = sort_files(files, SortKey::Size);
    assert_eq!(names(&sorted), strings(&["d", "y", "v", "x", "w"]));
}

#[test]
fn time_and_name_orders() {
    let files = vec![entry("a", "", false, 0, 30), entry("b", "", false, 0, 10), entry("c", "", false, 0, 20)];
    assert_eq!(names(&sort_files(files, SortKey::Time)), strings(&["b", "c", "a"]));
    let files = vec![entry("é", "", true, 0, 0), entry("Z", "", false, 0, 0), entry("a", "", false, 0, 0)];
    assert_eq!(names(&sort_files(files, SortKey::Name)), strings(&["Z", "a", "é"]));
}

#[test]
fn sorting_keeps_every_entry_in_order() {
    let files = vec![
        entry("m", "", false, 3, 0),
        entry("k", "", true, 1, 0),
        entry("m", "", false, 3, 0),
        entry("a", "", false, 7, 0),
    ];
    let sorted = sort_files(files, SortKey::Size);
    let mut got = names(&sorted);
    assert_eq!(got.len(), 4);
    for pair in sorted.windows(2) {
        let a = &pair[0];
        let b = &pair[1];
        let ok = if a.dir != b.dir { a.dir } else { a.line.as_ref().unwrap().size <= b.line.as_ref().unwrap().size };
        assert!(ok);
    }
    got.sort();
    assert_eq!(got, strings(&["a", "k", "m", "m"]));
}

fn grid_files(n: usize, name_len: usize) -> Vec<File> {
    (0..n)
        .map(|i| {
            let c = (b'a' + i as u8) as char;
            let s: String = std::iter::repeat(c).take(name_len).collect();
            entry(&s, "", false, 0, 0)
        })
        .collect()
}

#[test]
fn grid_on_one_line() {
    let files = grid_files(3, 5);
    assert_eq!(grid_size(&files, 100), (1, Vec::new()));
    assert_eq!(grid_print(&files, 100), format!("aaaaa   bbbbb   ccccc{RESET}"));
}

#[test]
fn grid_grows_lines_until_it_fits() {
    let files = grid_files(5, 7);
    assert_eq!(grid_size(&files, 20), (3, vec![10, 10]));
    assert_eq!(
        grid_print(&files, 20),
        format!("aaaaaaa   ddddddd   \nbbbbbbb   eeeeeee   \nccccccc   {RESET}")
    );
}

#[test]
fn grid_shrinks_lines_while_narrower() {
    let files = grid_files(6, 5);
    assert_eq!(grid_size(&files, 20), (3, vec![8, 8]));
    assert_eq!(
        grid_print(&files, 20),
        format!("aaaaa   ddddd   \nbbbbb   eeeee   \nccccc   fffff   {RESET}")
    );
}

#[test]
fn grid_never_wider_than_the_terminal() {
    for n in 1..12 {
        for tw in 8..40 {
            let files = grid_files(n, 5);
            let (lines, cols) = grid_size(&files, tw);
            if lines == 1 {
                assert!(files.iter().map(|f| f.len).sum::<usize>() <= tw);
            } else {
                assert!(cols.iter().sum::<usize>() <= tw);
            }
        }
    }
}

fn width() -> Width {
    Width { uid: 5, gid: 5, szn: 2, xattr: false, inode: 0 }
}

#[test]
fn long_line_columns() {
    let f = entry("f", "", false, 12, 0);
    let fl = flags();
    let expected = format!("P{WHITE} alice  {YEAR} 1 Jan  1970  {GREEN}12  f");
    assert_eq!(line_fmt(&f, &fl, &width(), 1700000000), expected);
    let mut fg = flags();
    fg.group = true;
    let mut g = entry("f", "", false, 12, 0);
    g.line.as_mut().unwrap().group = "staff".to_string();
    let expected = format!("P{WHITE} alice staff  {YEAR} 1 Jan  1970  {GREEN}12  f");
    assert_eq!(line_fmt(&g, &fg, &width(), 1700000000), expected);
    let bare = File { line: None, ..entry("g", "", false, 0, 0) };
    assert_eq!(line_fmt(&bare, &fl, &width(), 1700000000), "");
}

#[test]
fn long_listing_lines() {
    let files = vec![entry("f", "", false, 12, 0), entry("g", "", false, 3, 0)];
    let fl = flags();
    let text = list_print(&files, &fl, &width(), 1700000000);
    let expected = format!(
        "P{WHITE} alice  {YEAR} 1 Jan  1970  {GREEN}12  f\nP{WHITE} alice  {YEAR} 1 Jan  1970  {GREEN} 3  g{RESET}"
    );
    assert_eq!(text, expected);
}

#[test]
fn tree_branches() {
    assert_eq!(branch_name("│  ", true, "x"), format!("{WHITE}│  {END} x"));
    assert_eq!(branch_name("", false, "y"), format!("{WHITE}{LEAF} y"));
    assert_eq!(sub_trunk("", false), TRUNK);
    assert_eq!(sub_trunk(TRUNK, true), format!("{TRUNK}{HOLLOW}"));
}

#[test]
fn tree_level_sorts_and_branches() {
    let files = vec![entry("b", "", false, 0, 0), entry("a", "", true, 0, 0)];
    let fl = flags();
    let level = tree_level(files, &fl, "");
    assert_eq!(level.len(), 2);
    assert_eq!(level[0].file.sname, "a");
    assert_eq!(level[0].file.name, format!("{WHITE}{LEAF} a"));
    assert_eq!(level[0].below, Some(TRUNK.to_string()));
    assert_eq!(level[1].file.name, format!("{WHITE}{END} b"));
    assert_eq!(level[1].below, None);
    let mut ft = flags();
    ft.name_sort = true;
    assert_eq!(tree_key(&ft), SortKey::Name);
    assert!(within_depth(&fl, 8));
    assert!(!within_depth(&fl, 9));
}

#[test]
fn tree_top_entry() {
    let fl = flags();
    assert!(root_flags(&fl, ".git").all);
    assert!(!root_flags(&fl, "src").all);
    let top = root_entry(entry("src", "", true, 0, 0), "proj/");
    assert_eq!(top.name, format!("{WHITE} proj/src"));
    let files = vec![top, entry("x", "", false, 0, 0)];
    assert_eq!(tree_print(&files), format!("{WHITE} proj/src\nx{RESET}"));
}

#[test]
fn empty_groups() {
    let fl = flags();
    let w = width();
    assert_eq!(file_vec_print(None, Vec::new(), &fl, &w, 80, 1700000000), format!("{BLUE_L}.   ..\n"));
    let mut fll = flags();
    fll.list_format = true;
    assert_eq!(
        file_vec_print(Some("dir".to_string()), Vec::new(), &fll, &w, 80, 1700000000),
        format!("\n{WHITE}dir:\n")
    );
}

#[test]
fn group_in_the_grid_is_sorted() {
    let fl = flags();
    let files = vec![entry("b", "", false, 0, 0), entry("a", "", false, 0, 0), entry("d", "", true, 0, 0)];
    let out = file_vec_print(None, files, &fl, &width(), 80, 1700000000);
    assert_eq!(out, format!("d   a   b{RESET}\n"));
}

#[test]
fn group_sorted_by_size_is_listed_long() {
    let mut fl = flags();
    fl.size_sort = true;
    let files = vec![entry("f", "", false, 12, 0), entry("g", "", false, 3, 0)];
    let out = file_vec_print(Some("t".to_string()), files, &fl, &width(), 80, 1700000000);
    let expected = format!(
        "\n{WHITE}t:\nP{WHITE} alice  {YEAR} 1 Jan  1970  {GREEN} 3  g\nP{WHITE} alice  {YEAR} 1 Jan  1970  {GREEN}12  f{RESET}\n"
    );
    assert_eq!(out, expected);
}

#[test]
fn named_files_and_titles() {
    let f = standalone_entry(entry("c.txt", "", false, 0, 0), "a/b/");
    assert_eq!(f.name, format!("{WHITE}a/b/c.txt"));
    assert_eq!(f.len, 12);
    let fl = flags();
    assert_eq!(folder_title("src".to_string(), 1, 0, &fl), None);
    assert_eq!(folder_title("src".to_string(), 2, 0, &fl), Some("src".to_string()));
    assert_eq!(folder_title("src".to_string(), 1, 1, &fl), Some("src".to_string()));
    let mut ft = flags();
    ft.tree_format = true;
    assert_eq!(folder_title("src".to_string(), 2, 0, &ft), None);
}

#[test]
fn messages() {
    assert_eq!(missing_message("nope"), format!("{RED}nope{WHITE}: No such file or directory\n\n"));
    let m = read_error_message("/root", "Permission denied");
    assert_eq!(m, format!("read path: {RED}{:<80}{WHITE}  Permission denied\n", "/root"));
}

#[test]
fn system_call_results() {
    assert!(cvt(-1i32).is_err());
    assert_eq!(cvt(3i32).unwrap(), 3);
    assert!(cvt(-1i64).is_err());
    assert_eq!(cvt(0isize).unwrap(), 0);
    assert_eq!(cvt(-2i8).unwrap(), -2);
}

#[test]
fn sorting_again_changes_nothing() {
    let files = vec![
        entry("b.rs", "4a_rs", false, 1, 1),
        entry("z", "", true, 1, 1),
        entry("a.rs", "4a_rs", false, 1, 1),
    ];
    let once = sort_files(files, SortKey::Kind);
    let first = names(&once);
    let twice = sort_files(once, SortKey::Kind);
    assert_eq!(names(&twice), first);
}

#[test]
fn whole_tree_listing() {
    let fl = flags();
    let inner = Dir { files: vec![entry("deep", "", false, 0, 0)], children: Vec::new() };
    let d = Dir {
        files: vec![entry("b", "", false, 0, 0), entry("a", "", true, 0, 0)],
        children: vec![("a".to_string(), inner)],
    };
    let out = tree_list(d, &fl, 0, "", Some(entry("top", "", true, 0, 0)));
    assert_eq!(names(&out), strings(&["top", "a", "deep", "b"]));
    assert_eq!(out[1].name, format!("{WHITE}{LEAF} a"));
    assert_eq!(out[2].name, format!("{WHITE}{TRUNK}{END} deep"));
    assert_eq!(out[3].name, format!("{WHITE}{END} b"));
    let mut shallow = flags();
    shallow.lvl = 1;
    let inner = Dir { files: vec![entry("deep", "", false, 0, 0)], children: Vec::new() };
    let d = Dir {
        files: vec![entry("a", "", true, 0, 0)],
        children: vec![("a".to_string(), inner)],
    };
    assert_eq!(names(&tree_list(d, &shallow, 0, "", None)), strings(&["a"]));
    let empty = Dir { files: Vec::new(), children: Vec::new() };
    assert!(tree_list(empty, &fl, 0, "", Some(entry("top", "", true, 0, 0))).is_empty());
}
