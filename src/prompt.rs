//! Stash labels, branch name, divergence from the upstream branch, and the
//! assembled prompt line.
use vstd::prelude::*;
use crate::paint::{dec, decimal, paint_text_in_color, painted};
use crate::status::{get_statuses, status_text, ChangeRecord};

verus! {

/// The labels, each followed by one space, in the order given.
pub open spec fn stash_concat(labels: Seq<Seq<char>>) -> Seq<char>
    decreases labels.len(),
{
    if labels.len() == 0 {
        Seq::empty()
    } else {
        stash_concat(labels.drop_last()) + labels.last() + seq![' ']
    }
}

/// Text of the stash list: nothing when it is empty, else the labels
/// (most recent first) in palette entry 1.
pub open spec fn stash_text(use_ansi: bool, labels: Seq<Seq<char>>) -> Seq<char> {
    if labels.len() == 0 {
        Seq::empty()
    } else {
        painted(use_ansi, 1, stash_concat(labels))
    }
}

/// Views of a list of strings.
pub open spec fn views(v: Seq<String>) -> Seq<Seq<char>> {
    v.map_values(|s: String| s@)
}

/// The branch's short name in palette entry 5, or `NO_BRANCH` when HEAD
/// does not resolve to a name.
pub open spec fn branch_text(use_ansi: bool, head: Option<Seq<char>>) -> Seq<char> {
    match head {
        Some(name) => painted(use_ansi, 5, name),
        None => seq!['N', 'O', '_', 'B', 'R', 'A', 'N', 'C', 'H'],
    }
}

/// `ahead/behind ` in palette entry 4, or nothing when the divergence from
/// the upstream branch is unavailable.
pub open spec fn divergence_text(use_ansi: bool, ahead_behind: Option<(usize, usize)>) -> Seq<char> {
    match ahead_behind {
        Some((ahead, behind)) => painted(
            use_ansi,
            4,
            dec(ahead as nat) + seq!['/'] + dec(behind as nat) + seq![' '],
        ),
        None => Seq::empty(),
    }
}

/// The labels of the stash list, most recent first, as one coloured string;
/// empty when there is no stash entry.
pub fn get_stashes(use_ansi: bool, labels: &Vec<String>) -> (r: String)
    ensures
        r@ == stash_text(use_ansi, views(labels@)),
{
    let mut buff = String::new();
    let mut i: usize = 0;
    proof {
        assert(views(labels@).take(0) =~= Seq::<Seq<char>>::empty());
    }
    while i < labels.len()
        invariant
            i <= labels@.len(),
            buff@ == stash_concat(views(labels@).take(i as int)),
        decreases labels@.len() - i,
    {
        proof {
            reveal_strlit(" ");
        }
        buff.append(labels[i].as_str());
        buff.append(" ");
        proof {
            let next = views(labels@).take(i as int + 1);
            assert(next.drop_last() =~= views(labels@).take(i as int));
            assert(next.last() == labels@[i as int]@);
        }
        i = i + 1;
    }
    proof {
        assert(views(labels@).take(labels@.len() as int) =~= views(labels@));
    }
    if labels.len() == 0 {
        buff
    } else {
        paint_text_in_color(use_ansi, &1, buff)
    }
}

/// The stash text keeps the order of the labels: any prefix of the list
/// comes out before the rest.
pub proof fn stash_labels_keep_order(labels: Seq<Seq<char>>, k: int)
    requires
        0 <= k <= labels.len(),
    ensures
        stash_concat(labels) == stash_concat(labels.take(k)) + stash_concat(labels.skip(k)),
    decreases labels.len(),
{
    if k == labels.len() {
        assert(labels.take(k) =~= labels);
        assert(labels.skip(k) =~= Seq::<Seq<char>>::empty());
        assert(stash_concat(labels) + Seq::<char>::empty() =~= stash_concat(labels));
    } else {
        let d = labels.drop_last();
        stash_labels_keep_order(d, k);
        assert(d.take(k) =~= labels.take(k));
        assert(labels.skip(k).drop_last() =~= d.skip(k));
        assert(labels.skip(k).last() == labels.last());
        assert(stash_concat(labels.take(k)) + stash_concat(labels.skip(k)) =~= stash_concat(d.take(k))
            + stash_concat(d.skip(k)) + labels.last() + seq![' ']);
    }
}

/// The stash text depends on the labels alone: reading an unchanged stash
/// list twice gives the same text.
pub proof fn stash_text_repeatable(use_ansi: bool, first: Seq<String>, second: Seq<String>)
    requires
        views(first) == views(second),
    ensures
        stash_text(use_ansi, views(first)) == stash_text(use_ansi, views(second)),
{
}

/// The short name of the checked-out branch, coloured, or `NO_BRANCH`.
pub fn get_branch_name(use_ansi: bool, head: &Option<String>) -> (r: String)
    ensures
        r@ == branch_text(use_ansi, opt_view(*head)),
{
    match head {
        Some(name) => paint_text_in_color(use_ansi, &5, name.clone()),
        None => {
            proof {
                reveal_strlit("NO_BRANCH");
            }
            String::from_str("NO_BRANCH")
        },
    }
}

/// `ahead/behind ` coloured, or the empty string when no divergence from
/// the upstream branch could be computed. Defined for every input.
pub fn get_remote_diff(use_ansi: bool, ahead_behind: Option<(usize, usize)>) -> (r: String)
    ensures
        r@ == divergence_text(use_ansi, ahead_behind),
{
    match ahead_behind {
        Some((ahead, behind)) => {
            proof {
                reveal_strlit("/");
                reveal_strlit(" ");
            }
            let mut text = decimal(ahead);
            text.append("/");
            let b = decimal(behind);
            text.append(b.as_str());
            text.append(" ");
            paint_text_in_color(use_ansi, &4, text)
        },
        None => String::new(),
    }
}

/// What one reading of a repository yields.
pub struct RepoSnapshot {
    /// Stash labels, most recent first.
    pub stashes: Vec<String>,
    /// One record per changed path.
    pub records: Vec<ChangeRecord>,
    /// Short name of HEAD, when it names a branch.
    pub head: Option<String>,
    /// Commits ahead of and behind the upstream branch, when available.
    pub ahead_behind: Option<(usize, usize)>,
}

/// View of an optional string.
pub open spec fn opt_view(o: Option<String>) -> Option<Seq<char>> {
    match o {
        Some(s) => Some(s@),
        None => None,
    }
}

/// The prompt line: `[]` outside a repository, otherwise
/// `[ <stashes><statuses> <branch> <divergence>]`.
pub open spec fn prompt_text(use_ansi: bool, repo: Option<RepoSnapshot>) -> Seq<char> {
    match repo {
        None => seq!['[', ']'],
        Some(s) => seq!['[', ' '] + stash_text(use_ansi, views(s.stashes@)) + status_text(
            use_ansi,
            s.records@,
        ) + seq![' '] + branch_text(use_ansi, opt_view(s.head)) + seq![' '] + divergence_text(
            use_ansi,
            s.ahead_behind,
        ) + seq![']'],
    }
}

/// Assembles the prompt line from one reading of the repository, or `[]`
/// when there is no repository.
pub fn print_right(use_ansi: bool, repo: &Option<RepoSnapshot>) -> (r: String)
    ensures
        r@ == prompt_text(use_ansi, *repo),
{
    match repo {
        None => {
            proof {
                reveal_strlit("[]");
            }
            String::from_str("[]")
        },
        Some(s) => {
            proof {
                reveal_strlit("[ ");
                reveal_strlit(" ");
                reveal_strlit("]");
            }
            let mut out = String::from_str("[ ");
            let stashes = get_stashes(use_ansi, &s.stashes);
            out.append(stashes.as_str());
            let statuses = get_statuses(use_ansi, &s.records);
            out.append(statuses.as_str());
            out.append(" ");
            let branch = get_branch_name(use_ansi, &s.head);
            out.append(branch.as_str());
            out.append(" ");
            let diff = get_remote_diff(use_ansi, s.ahead_behind);
            out.append(diff.as_str());
            out.append("]");
            out
        },
    }
}

} // verus!
