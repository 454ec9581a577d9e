use mls::args::Flags;
use mls::color::{
    BLACK_H, BLUE_H, BLUE_L, CYAN, GREEN, GREEN_H, MAGENTA, OCT, RED, RESET, SIZE, SUFFIX, UNDERLINE,
    WHITE, YELLOW,
};
use mls::file::attr::{ext_attr_fmt, AclText, Xattr};
use mls::file::link::{link_full_path, ref_fmt, LinkInfo};
use mls::file::mode::{has_bit, permissions_fmt, underline, USER_EXE};
use mls::file::name::{ext, ext_group, filename, filename_fmt, parent_path};
use mls::file::size::{size_fmt, size_to_string};
use mls::file::time::{unix, FileTimes};
use mls::file::{info, FileFacts, Meta};
use mls::fileinfo;
use mls::Width;

fn flags() -> Flags {
    Flags {
        all: false,
        one: false,
        long: false,
        size_sort: false,
        time_sort: false,
        name_sort: false,
        full: false,
        follow: false,
        bytes: false,
        ctime: false,
        access: false,
        create: false,
        dir_only: false,
        group: false,
        octal: false,
        inode: false,
        xattr: false,
        lvl: 9,
        list_format: false,
        tree_format: false,
    }
}

fn width() -> Width {
    Width { uid: 0, gid: 0, szn: 0, xattr: false, inode: 0 }
}

fn times() -> FileTimes {
    FileTimes { created: Some(7), atime: 8, ctime: 9, mtime: 10 }
}

fn facts(path: &str, mode: u32, size: u64) -> FileFacts {
    FileFacts {
        path: path.to_string(),
        canonical: None,
        meta: Meta {
            is_dir: mode & 0o170000 == 0o040000,
            is_symlink: false,
            mode,
            nlink: 1,
            size,
            ino: 42,
            times: times(),
        },
        user: "alice".to_string(),
        group: "staff".to_string(),
        link: None,
        attr: None,
        size_text: size_to_string(size, "1.5"),
    }
}

#[test]
fn names_from_paths() {
    assert_eq!(filename("a/b/c.txt", None), "c.txt");
    assert_eq!(filename("..", Some("/home/user")), "user");
    assert_eq!(filename("..", None), "..");
    assert_eq!(fileinfo::filename("dir/x.rs"), "x.rs");
    assert_eq!(parent_path("a/b/c.txt"), "a/b/");
    assert_eq!(parent_path("c.txt"), "");
    assert_eq!(parent_path("/"), "");
    assert_eq!(fileinfo::basepath("a/b/c"), "a/b");
    assert_eq!(fileinfo::basepath("c"), "");
}

#[test]
fn extensions_and_groups() {
    assert_eq!(ext("photo.JPG"), "jpg");
    assert_eq!(ext(".bashrc"), "");
    assert_eq!(ext("noext"), "");
    assert_eq!(ext("a.tar.gz"), "gz");
    assert_eq!(ext_group("jpg".to_string()), ("1_jpg".to_string(), 1));
    assert_eq!(ext_group("rs".to_string()), ("4a_rs".to_string(), 7));
    assert_eq!(ext_group("toml".to_string()), ("4b_toml".to_string(), 4));
    assert_eq!(ext_group("swp".to_string()), ("zzz_swp".to_string(), 9));
    assert_eq!(ext_group("xyz".to_string()), ("xyz".to_string(), 0));
}

#[test]
fn first_extension_tables() {
    assert_eq!(fileinfo::ext_group("rs".to_string()), ("4a_rs".to_string(), 4));
    assert_eq!(fileinfo::ext_group("md".to_string()), ("4b_md".to_string(), 4));
    assert_eq!(fileinfo::ext_group("lock".to_string()), ("lock".to_string(), 0));
    assert_eq!(fileinfo::ext("Archive.TGZ"), "tgz");
}

#[test]
fn name_colours() {
    assert_eq!(filename_fmt("d", "", 0, true, false, false), format!("{BLUE_L}d"));
    assert_eq!(filename_fmt("l", "", 0, false, false, true), format!("{CYAN}l"));
    assert_eq!(filename_fmt("x", "", 0, false, true, false), format!("{GREEN_H}x"));
}

#[test]
fn mode_bits() {
    assert!(has_bit(0o755, USER_EXE));
    assert!(!has_bit(0o644, USER_EXE));
    assert!(underline(0o104755));
    assert!(underline(0o010644));
    assert!(!underline(0o100644));
    assert!(!underline(0o040755));
}

#[test]
fn permission_column() {
    let fl = flags();
    let p = permissions_fmt(0o040755, 2, &fl);
    let rwx = format!(
        "{GREEN}r{YELLOW}w{RED}x{GREEN}r{BLACK_H}-{RED}x{GREEN}r{BLACK_H}-{RED}x"
    );
    assert_eq!(p, format!("{BLUE_H}d{rwx}"));
    let p = permissions_fmt(0o100755, 3, &fl);
    assert_eq!(p, format!("{MAGENTA}3{rwx}"));
    let p = permissions_fmt(0o100755, 12, &fl);
    assert_eq!(p, format!("{MAGENTA}*{rwx}"));
    let p = permissions_fmt(0o100755, 1, &fl);
    assert_eq!(p, format!(" {rwx}"));
    let mut fo = flags();
    fo.octal = true;
    let p = permissions_fmt(0o100755, 1, &fo);
    assert_eq!(p, format!("{BLACK_H}100{OCT}755   {rwx}"));
}

#[test]
fn sticky_bits_replace_execute() {
    let fl = flags();
    let p = permissions_fmt(0o101777, 1, &fl);
    assert!(p.ends_with(&format!("{}t", mls::color::MAGENTA_H)));
}

#[test]
fn size_texts() {
    assert_eq!(size_to_string(0, "x"), ("0".to_string(), String::new()));
    assert_eq!(size_to_string(999, "x"), ("999".to_string(), String::new()));
    assert_eq!(size_to_string(1024, "1"), ("1".to_string(), "k".to_string()));
    assert_eq!(size_to_string(5 << 20, "5"), ("5".to_string(), "M".to_string()));
    assert_eq!(size_to_string(3 << 30, "3"), ("3".to_string(), "G".to_string()));
}

#[test]
fn chosen_time() {
    let mut fl = flags();
    assert_eq!(unix(&times(), &fl), 10);
    fl.ctime = true;
    assert_eq!(unix(&times(), &fl), 9);
    fl.access = true;
    assert_eq!(unix(&times(), &fl), 8);
    fl.create = true;
    assert_eq!(unix(&times(), &fl), 7);
    let t = FileTimes { created: None, atime: 1, ctime: 1, mtime: 1 };
    assert_eq!(unix(&t, &fl), 0);
}

#[test]
fn grid_entry_of_a_plain_file() {
    let fl = flags();
    let mut w = width();
    let f = info(facts("dir/main.rs", 0o100644, 10), &fl, &mut w).unwrap();
    assert_eq!(f.sname, "main.rs");
    assert_eq!(f.name, format!("{}main.rs", mls::color::SRC));
    assert_eq!(f.ext, "4a_rs");
    assert_eq!(f.len, 10);
    assert!(!f.dir);
    assert!(f.line.is_none());
    assert_eq!(w.szn, 0);
}

#[test]
fn hidden_entries_need_all() {
    let mut fl = flags();
    let mut w = width();
    assert!(info(facts(".hidden", 0o100644, 1), &fl, &mut w).is_none());
    fl.all = true;
    assert!(info(facts(".hidden", 0o100644, 1), &fl, &mut w).is_some());
}

#[test]
fn directories_only() {
    let mut fl = flags();
    fl.dir_only = true;
    let mut w = width();
    assert!(info(facts("file.txt", 0o100644, 1), &fl, &mut w).is_none());
    let d = info(facts("sub", 0o040755, 4096), &fl, &mut w).unwrap();
    assert!(d.dir);
    assert_eq!(d.ext, "");
}

#[test]
fn long_entry_grows_widths() {
    let mut fl = flags();
    fl.list_format = true;
    fl.group = true;
    fl.inode = true;
    let mut w = width();
    let f = info(facts("big.bin", 0o100644, 1536), &fl, &mut w).unwrap();
    let line = f.line.as_ref().unwrap();
    assert_eq!(line.size, 1536);
    assert_eq!(line.size_str, "1.5");
    assert_eq!(line.size_suf, "k");
    assert_eq!(line.user, "alice");
    assert_eq!(line.group, "staff");
    assert_eq!(line.inode, format!("{MAGENTA}42  "));
    assert_eq!(line.time, 10);
    assert_eq!(w.szn, 4);
    assert_eq!(w.uid, 5);
    assert_eq!(w.gid, 5);
    assert_eq!(w.inode, MAGENTA.len() + 4);
    let before = w;
    let _ = info(facts("x", 0o100644, 3), &fl, &mut w).unwrap();
    assert_eq!(w.szn, before.szn);
    assert_eq!(w.uid, before.uid);
}

#[test]
fn long_entry_of_a_directory_counts_entries() {
    let mut fl = flags();
    fl.list_format = true;
    let mut w = width();
    let mut d = facts("sub", 0o040755, 4096);
    d.meta.nlink = 7;
    let f = info(d, &fl, &mut w).unwrap();
    let line = f.line.as_ref().unwrap();
    assert_eq!(line.size, 5);
    assert_eq!(line.size_str, "");
    assert_eq!(w.szn, 2);
    assert_eq!(size_fmt(&f, &w, false), format!("{WHITE}5{BLACK_H}f"));
}

#[test]
fn size_column_of_entries() {
    let mut fl = flags();
    fl.list_format = true;
    let mut w = width();
    let f = info(facts("big.bin", 0o100644, 3 << 20), &fl, &mut w).unwrap();
    w.szn = 5;
    assert_eq!(size_fmt(&f, &w, false), format!("{SIZE} 1.5{SUFFIX}M"));
    assert_eq!(size_fmt(&f, &w, true), format!("{WHITE}3145728"));
    let g = info(facts("small", 0o100644, 12), &fl, &mut w).unwrap();
    assert_eq!(size_fmt(&g, &w, false), format!("{GREEN}   12"));
}

fn link_info(target: &str, error: bool, dir: bool) -> LinkInfo {
    LinkInfo {
        read_link_path: target.to_string(),
        full_path: target.to_string(),
        exe: false,
        dir,
        error,
        full_canonical: None,
        read_link_canonical: None,
    }
}

#[test]
fn link_targets() {
    let (t, d) = ref_fmt(&link_info("lib/x.rs", false, false), false);
    assert_eq!(t, format!("{WHITE} -> {CYAN}lib/{}x.rs", mls::color::SRC));
    assert!(!d);
    let (t, d) = ref_fmt(&link_info("gone", true, false), false);
    assert_eq!(t, format!("{RED} -> gone"));
    assert!(!d);
    let mut abs = link_info("d", false, true);
    abs.full_canonical = Some("/srv/d".to_string());
    let (t, d) = ref_fmt(&abs, true);
    assert_eq!(t, format!("{WHITE} -> {CYAN}/srv/{BLUE_L}d"));
    assert!(d);
}

#[test]
fn link_paths_from_the_link_directory() {
    assert_eq!(link_full_path("a/b/ln", "t.txt"), "a/b//t.txt");
    assert_eq!(link_full_path("ln", "t.txt"), "/t.txt");
    assert_eq!(link_full_path("a/ln", "/etc/x"), "/etc/x");
}

#[test]
fn broken_link_entry_is_red() {
    let fl = flags();
    let mut w = width();
    let mut l = facts("dangling", 0o120777, 4);
    l.meta.is_symlink = true;
    l.link = Some(link_info("nowhere", true, false));
    let f = info(l, &fl, &mut w).unwrap();
    assert_eq!(f.name, format!("{RED}dangling"));
}

#[test]
fn underlined_special_files() {
    let fl = flags();
    let mut w = width();
    let f = info(facts("fifo", 0o010644, 0), &fl, &mut w).unwrap();
    assert_eq!(f.name, format!("{UNDERLINE}{WHITE}fifo{RESET}"));
}

#[test]
fn attribute_marks() {
    let both = Some(Xattr {
        xattr: Some(vec!["user.a".to_string(), "user.b".to_string()]),
        acl: Some(vec![AclText {
            kind: "user".to_string(),
            name: "bob".to_string(),
            allow: true,
            perms: "read".to_string(),
            flags: "".to_string(),
        }]),
    });
    assert_eq!(ext_attr_fmt(&both, false, true, 4), ("", String::new()));
    assert_eq!(ext_attr_fmt(&both, true, false, 4), ("@", String::new()));
    let (mark, lines) = ext_attr_fmt(&both, true, true, 4);
    assert_eq!(mark, "@");
    assert_eq!(
        lines,
        format!(
            "\n{WHITE} ├── user.a\n{WHITE} └── user.b\n{WHITE}   + user:bob allow read "
        )
    );
    let acl_only = Some(Xattr { xattr: None, acl: Some(Vec::new()) });
    assert_eq!(ext_attr_fmt(&acl_only, true, false, 4).0, "+");
    assert_eq!(ext_attr_fmt(&None, true, true, 4), (" ", String::new()));
}
