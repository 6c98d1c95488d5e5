use git_prompt::paint::{decimal, paint_text_in_color};
use git_prompt::prompt::{get_branch_name, get_remote_diff, get_stashes, print_right, RepoSnapshot};
use git_prompt::status::{classify, get_statuses, ChangeRecord, OutputStatuses, StatusBlock, Statuses};

const ALL: [OutputStatuses; 6] = [
    OutputStatuses::Conflicted,
    OutputStatuses::Deleted,
    OutputStatuses::Modified,
    OutputStatuses::New,
    OutputStatuses::Renamed,
    OutputStatuses::TypeChange,
];

fn blank() -> ChangeRecord {
    ChangeRecord {
        index_new: false,
        index_modified: false,
        index_deleted: false,
        index_renamed: false,
        index_typechange: false,
        wt_new: false,
        wt_modified: false,
        wt_deleted: false,
        wt_typechange: false,
        wt_renamed: false,
        conflicted: false,
    }
}

fn flags(r: &ChangeRecord) -> usize {
    [
        r.index_new,
        r.index_modified,
        r.index_deleted,
        r.index_renamed,
        r.index_typechange,
        r.wt_new,
        r.wt_modified,
        r.wt_deleted,
        r.wt_typechange,
        r.wt_renamed,
        r.conflicted,
    ]
    .iter()
    .filter(|b| **b)
    .count()
}

fn strip_ansi(s: &str) -> String {
    let mut out = String::new();
    let mut inside = false;
    for c in s.chars() {
        if inside {
            inside = c != 'm';
        } else if c == '\x1b' {
            inside = true;
        } else {
            out.push(c);
        }
    }
    out
}

fn strip_macros(s: &str) -> String {
    let mut out = String::new();
    let mut state = 0;
    for c in s.chars() {
        state = match state {
            1 => if c == 'F' { 2 } else { 0 },
            2 => if c == '}' { 0 } else { 2 },
            _ => {
                if c == '%' {
                    1
                } else {
                    out.push(c);
                    0
                }
            }
        };
    }
    out
}

#[test]
fn paint_macro_dialect() {
    assert_eq!(paint_text_in_color(false, &3, String::from("x")), "%F{3}x%f");
}

#[test]
fn paint_ansi_dialect() {
    assert_eq!(paint_text_in_color(true, &3, String::from("x")), "\x1b[33mx\x1b[0m");
}

#[test]
fn paint_passes_unusual_colors_through() {
    assert_eq!(paint_text_in_color(true, &127, String::from("a")), "\x1b[157ma\x1b[0m");
    assert_eq!(paint_text_in_color(true, &-40, String::from("a")), "\x1b[-10ma\x1b[0m");
    assert_eq!(paint_text_in_color(false, &-2, String::new()), "%F{-2}%f");
}

#[test]
fn decimal_notation() {
    assert_eq!(decimal(0), "0");
    assert_eq!(decimal(7), "7");
    assert_eq!(decimal(10), "10");
    assert_eq!(decimal(1234), "1234");
    assert_eq!(decimal(usize::MAX), usize::MAX.to_string());
}

#[test]
fn category_colors() {
    let expected = ["%F{6}4%f", "%F{1}4%f", "%F{3}4%f", "%F{2}4%f", "%F{5}4%f", "%F{4}4%f"];
    for (c, e) in ALL.iter().zip(expected.iter()) {
        assert_eq!(c.format(false, 4), *e);
    }
    assert_eq!(OutputStatuses::New.format(true, 12), "\x1b[32m12\x1b[0m");
}

#[test]
fn block_renders_in_fixed_order() {
    let mut a = StatusBlock::new(false);
    a.increment(OutputStatuses::TypeChange);
    a.increment(OutputStatuses::New);
    a.increment(OutputStatuses::Conflicted);
    a.increment(OutputStatuses::New);
    let mut b = StatusBlock::new(false);
    b.increment(OutputStatuses::New);
    b.increment(OutputStatuses::Conflicted);
    b.increment(OutputStatuses::New);
    b.increment(OutputStatuses::TypeChange);
    assert_eq!(a.to_string(), "%F{6}1%f %F{2}2%f %F{4}1%f");
    assert_eq!(a.to_string(), b.to_string());
    assert_eq!(a.count(OutputStatuses::New), 2);
    assert_eq!(a.count(OutputStatuses::Deleted), 0);
}

#[test]
fn zero_categories_are_absent() {
    let empty = StatusBlock::new(true);
    assert_eq!(empty.to_string(), "");
    let mut one = StatusBlock::new(false);
    one.increment(OutputStatuses::Renamed);
    assert_eq!(one.to_string(), "%F{5}1%f");
    assert!(!one.to_string().contains('0'));
}

#[test]
fn statuses_increment_each_side() {
    let mut s = Statuses::new(false);
    s.increment_index(OutputStatuses::Modified);
    s.increment_working(OutputStatuses::Deleted);
    s.increment_working(OutputStatuses::Deleted);
    assert_eq!(s.to_string(), "%F{1}2%f|%F{3}1%f");
    assert_eq!(s.index.count(OutputStatuses::Modified), 1);
    assert_eq!(s.working.count(OutputStatuses::Modified), 0);
}

#[test]
fn tally_sum_equals_flags_set() {
    let mut r1 = blank();
    r1.index_modified = true;
    r1.wt_modified = true;
    let mut r2 = blank();
    r2.conflicted = true;
    r2.wt_deleted = true;
    r2.index_renamed = true;
    let mut r3 = blank();
    r3.wt_new = true;
    let records = vec![r1, r2, r3, blank()];
    let s = classify(false, &records);
    let total: usize = ALL.iter().map(|c| s.index.count(*c) + s.working.count(*c)).sum();
    let flagged: usize = records.iter().map(flags).sum();
    assert_eq!(flagged, 6);
    assert_eq!(total, flagged);
    assert_eq!(s.working.count(OutputStatuses::Modified), 1);
    assert_eq!(s.index.count(OutputStatuses::Modified), 1);
    assert_eq!(s.index.count(OutputStatuses::Conflicted), 0);
    assert_eq!(s.working.count(OutputStatuses::Conflicted), 1);
}

#[test]
fn every_flag_reaches_its_bucket() {
    let mut r = blank();
    r.index_new = true;
    r.index_modified = true;
    r.index_deleted = true;
    r.index_renamed = true;
    r.index_typechange = true;
    r.wt_new = true;
    r.wt_modified = true;
    r.wt_deleted = true;
    r.wt_typechange = true;
    r.wt_renamed = true;
    r.conflicted = true;
    let out = get_statuses(false, &vec![r, r]);
    assert_eq!(
        out,
        "%F{6}2%f %F{1}2%f %F{3}2%f %F{2}2%f %F{5}2%f %F{4}2%f|%F{1}2%f %F{3}2%f %F{2}2%f %F{5}2%f %F{4}2%f"
    );
}

#[test]
fn one_untracked_file() {
    let mut r = blank();
    r.wt_new = true;
    assert_eq!(get_statuses(false, &vec![r]), "%F{2}1%f|");
    assert_eq!(get_statuses(true, &vec![r]), "\x1b[32m1\x1b[0m|");
}

#[test]
fn no_changes_give_bare_bar() {
    assert_eq!(get_statuses(false, &Vec::new()), "|");
}

#[test]
fn divergence_ahead_two() {
    assert_eq!(get_remote_diff(false, Some((2, 0))), "%F{4}2/0 %f");
    assert_eq!(get_remote_diff(true, Some((2, 0))), "\x1b[34m2/0 \x1b[0m");
}

#[test]
fn divergence_unavailable_is_empty() {
    assert_eq!(get_remote_diff(false, None), "");
    assert_eq!(get_remote_diff(true, None), "");
}

#[test]
fn divergence_both_ways() {
    assert_eq!(get_remote_diff(false, Some((0, 0))), "%F{4}0/0 %f");
    assert_eq!(get_remote_diff(false, Some((13, 105))), "%F{4}13/105 %f");
}

#[test]
fn two_stash_entries() {
    let labels = vec![String::from("WIP on main: 1a2b3c wip"), String::from("On main: fix")];
    assert_eq!(get_stashes(false, &labels), "%F{1}WIP on main: 1a2b3c wip On main: fix %f");
    assert_eq!(get_stashes(false, &labels), get_stashes(false, &labels));
}

#[test]
fn no_stash_entries() {
    assert_eq!(get_stashes(true, &Vec::new()), "");
}

#[test]
fn branch_name_or_sentinel() {
    assert_eq!(get_branch_name(false, &Some(String::from("main"))), "%F{5}main%f");
    assert_eq!(get_branch_name(true, &None), "NO_BRANCH");
}

#[test]
fn outside_a_repository() {
    assert_eq!(print_right(false, &None), "[]");
}

#[test]
fn empty_repository() {
    let snap = RepoSnapshot { stashes: Vec::new(), records: Vec::new(), head: None, ahead_behind: None };
    assert_eq!(print_right(false, &Some(snap)), "[ | NO_BRANCH ]");
}

#[test]
fn full_prompt_line() {
    let mut r = blank();
    r.wt_modified = true;
    let snap = RepoSnapshot {
        stashes: vec![String::from("On main: fix")],
        records: vec![r],
        head: Some(String::from("main")),
        ahead_behind: Some((2, 0)),
    };
    assert_eq!(
        print_right(false, &Some(snap)),
        "[ %F{1}On main: fix %f%F{3}1%f| %F{5}main%f %F{4}2/0 %f]"
    );
}

#[test]
fn dialects_share_visible_text() {
    for color in [0i8, 3, 7, 9] {
        for text in ["", "main", "3/1 ", "On main: fix "] {
            let ansi = paint_text_in_color(true, &color, String::from(text));
            let macros = paint_text_in_color(false, &color, String::from(text));
            assert_eq!(strip_ansi(&ansi), text);
            assert_eq!(strip_ansi(&ansi), strip_macros(&macros));
        }
    }
}
