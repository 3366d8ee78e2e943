//! Branch naming and the decision logic of the worktree manager: reading
//! the version-control system's worktree listing, and choosing what a
//! startup cleanup removes or retains.  The commands themselves run
//! outside; this module only decides.

use vstd::prelude::*;

use crate::text::str_eq;

verus! {

/// The reserved branch-name prefix for this system's own work.
pub open spec fn spec_namespace() -> Seq<char> {
    "conductor/"@
}

/// Whether a character counts as alphanumeric, a function of the
/// character alone.
pub uninterp spec fn is_alnum(c: char) -> bool;

/// Relies on `char::is_alphanumeric`: whether the character is a letter
/// or a digit, a function of the character alone.
#[verifier::external_body]
fn char_is_alphanumeric(c: char) -> (r: bool)
    ensures
        r == is_alnum(c),
{
    c.is_alphanumeric()
}

/// The lower-case form of a text, a function of the characters alone.
pub uninterp spec fn lower_of(s: Seq<char>) -> Seq<char>;

/// Relies on `str::to_lowercase`: the result depends on the characters
/// alone.
#[verifier::external_body]
fn lowercase(s: &str) -> (r: String)
    ensures
        r@ == lower_of(s@),
{
    s.to_lowercase()
}

/// A title with every character that is neither alphanumeric nor a
/// hyphen replaced by a hyphen.
pub open spec fn spec_mapped(title: Seq<char>) -> Seq<char> {
    title.map_values(|c: char| if is_alnum(c) || c == '-' { c } else { '-' })
}

/// A text with its leading hyphens dropped.
pub open spec fn spec_trim_front(s: Seq<char>) -> Seq<char>
    decreases s.len(),
{
    if s.len() > 0 && s[0] == '-' {
        spec_trim_front(s.drop_first())
    } else {
        s
    }
}

/// A text with its trailing hyphens dropped.
pub open spec fn spec_trim_back(s: Seq<char>) -> Seq<char>
    decreases s.len(),
{
    if s.len() > 0 && s.last() == '-' {
        spec_trim_back(s.drop_last())
    } else {
        s
    }
}

/// The slug of a task title: non-alphanumerics become hyphens, the whole
/// is lower-cased, outer hyphens are trimmed, and at most forty
/// characters remain.
pub open spec fn spec_slug(title: Seq<char>) -> Seq<char> {
    let t = spec_trim_back(spec_trim_front(lower_of(spec_mapped(title))));
    if t.len() > 40 {
        t.take(40)
    } else {
        t
    }
}

/// The branch an agent works on: the namespace, the first eight
/// characters of the agent id, and the slug of the task title.  The name
/// is a function of the two inputs alone: equal inputs always give the
/// equal name.
pub open spec fn spec_branch_name(agent_id: Seq<char>, title: Seq<char>) -> Seq<char> {
    let prefix = if agent_id.len() > 8 {
        agent_id.take(8)
    } else {
        agent_id
    };
    spec_namespace() + prefix + "/"@ + spec_slug(title)
}

proof fn lemma_trim_front_at(s: Seq<char>, i: int)
    requires
        0 <= i <= s.len(),
        forall|j: int| 0 <= j < i ==> s[j] == '-',
        i < s.len() ==> s[i] != '-',
    ensures
        spec_trim_front(s) == s.skip(i),
    decreases i,
{
    if i == 0 {
        assert(s.skip(0) =~= s);
    } else {
        lemma_trim_front_at(s.drop_first(), i - 1);
        assert(s.drop_first().skip(i - 1) =~= s.skip(i));
    }
}

proof fn lemma_trim_back_at(s: Seq<char>, k: int)
    requires
        0 <= k <= s.len(),
        forall|j: int| k <= j < s.len() ==> s[j] == '-',
        k > 0 ==> s[k - 1] != '-',
    ensures
        spec_trim_back(s) == s.take(k),
    decreases s.len() - k,
{
    if k == s.len() {
        assert(s.take(k) =~= s);
    } else {
        assert(s.last() == '-');
        lemma_trim_back_at(s.drop_last(), k);
        assert(s.drop_last().take(k) =~= s.take(k));
    }
}

/// Derive the branch name for an agent's task.
pub fn branch_name(agent_id: &str, task_title: &str) -> (r: String)
    ensures
        r@ == spec_branch_name(agent_id@, task_title@),
{
    // replace what is neither alphanumeric nor a hyphen
    let tlen = task_title.unicode_len();
    let mut mapped = String::new();
    let mut i: usize = 0;
    proof {
        reveal_strlit("-");
    }
    while i < tlen
        invariant
            i <= tlen,
            tlen == task_title@.len(),
            mapped@ == spec_mapped(task_title@).take(i as int),
        decreases tlen - i,
    {
        let c = task_title.get_char(i);
        if char_is_alphanumeric(c) || c == '-' {
            let piece = task_title.substring_char(i, i + 1);
            proof {
                assert(piece@ =~= seq![task_title@[i as int]]);
            }
            mapped.append(piece);
        } else {
            proof {
                reveal_strlit("-");
            }
            mapped.append("-");
        }
        proof {
            assert(spec_mapped(task_title@)[i as int] == (if is_alnum(task_title@[i as int])
                || task_title@[i as int] == '-' {
                task_title@[i as int]
            } else {
                '-'
            }));
            assert(mapped@ =~= spec_mapped(task_title@).take(i + 1));
        }
        i = i + 1;
    }
    proof {
        assert(spec_mapped(task_title@).take(tlen as int) =~= spec_mapped(task_title@));
    }

    let lowered = lowercase(mapped.as_str());
    let ghost low = lower_of(spec_mapped(task_title@));

    // trim hyphens at both ends
    let llen = lowered.as_str().unicode_len();
    let mut start: usize = 0;
    while start < llen && lowered.as_str().get_char(start) == '-'
        invariant
            start <= llen,
            llen == low.len(),
            lowered@ == low,
            forall|j: int| 0 <= j < start ==> low[j] == '-',
        decreases llen - start,
    {
        start = start + 1;
    }
    proof {
        lemma_trim_front_at(low, start as int);
    }
    let ghost fronted = low.skip(start as int);
    let mut end: usize = llen;
    while end > start && lowered.as_str().get_char(end - 1) == '-'
        invariant
            start <= end <= llen,
            llen == low.len(),
            lowered@ == low,
            forall|j: int| end <= j < llen ==> low[j] == '-',
        decreases end,
    {
        end = end - 1;
    }
    proof {
        if start == end {
            // everything after the front trim is hyphens
            assert forall|j: int| 0 <= j < fronted.len() implies fronted[j] == '-' by {
                assert(low[start + j] == '-');
            }
            lemma_trim_back_at(fronted, 0);
        } else {
            assert forall|j: int| end - start <= j < fronted.len() implies fronted[j] == '-' by {
                assert(low[start + j] == '-');
            }
            assert(fronted[end - start - 1] == low[end - 1]);
            lemma_trim_back_at(fronted, end - start);
        }
        assert(fronted.take(end - start) =~= low.subrange(start as int, end as int));
    }

    // cut the slug to forty characters
    let slug_end = if end - start > 40 {
        start + 40
    } else {
        end
    };
    let slug = lowered.as_str().substring_char(start, slug_end);
    proof {
        let t = spec_trim_back(spec_trim_front(low));
        if t.len() > 40 {
            assert(slug@ =~= t.take(40));
        } else {
            assert(slug@ =~= t);
        }
    }

    // first eight characters of the agent id
    let alen = agent_id.unicode_len();
    let prefix = agent_id.substring_char(0, if alen > 8 {
        8
    } else {
        alen
    });
    proof {
        if alen > 8 {
            assert(prefix@ =~= agent_id@.take(8));
        } else {
            assert(prefix@ =~= agent_id@);
        }
    }

    let mut out = String::from_str("conductor/");
    out.append(prefix);
    out.append("/");
    out.append(slug);
    proof {
        assert(out@ =~= spec_branch_name(agent_id@, task_title@));
    }
    out
}

// ── Worktree listings ──

/// One worktree of a repository: its directory and the branch checked
/// out there.
#[derive(Debug, Clone)]
pub struct WorktreeInfo {
    pub path: String,
    pub branch: String,
}

/// The mathematical shape of a worktree entry.
pub struct WorktreeInfoView {
    pub path: Seq<char>,
    pub branch: Seq<char>,
}

impl View for WorktreeInfo {
    type V = WorktreeInfoView;

    open spec fn view(&self) -> WorktreeInfoView {
        WorktreeInfoView { path: self.path@, branch: self.branch@ }
    }
}

/// Whether `p` starts `s`.
pub open spec fn spec_has_prefix(s: Seq<char>, p: Seq<char>) -> bool {
    p.len() <= s.len() && s.take(p.len() as int) == p
}

/// Whether a string slice starts with the given prefix.
pub fn str_has_prefix(s: &str, p: &str) -> (r: bool)
    ensures
        r == spec_has_prefix(s@, p@),
{
    let plen = p.unicode_len();
    let slen = s.unicode_len();
    if plen > slen {
        return false;
    }
    let head = s.substring_char(0, plen);
    str_eq(head, p)
}

/// The worktree entries named by a porcelain listing that lie under the
/// given base directory.  An entry opens with a `worktree ` line and may
/// carry a `branch refs/heads/` line; entries outside the base are
/// dropped, and a missing branch is the empty name.
pub open spec fn spec_worktrees_under(
    lines: Seq<Seq<char>>,
    base: Seq<char>,
    cur: Option<Seq<char>>,
    br: Option<Seq<char>>,
) -> Seq<WorktreeInfoView>
    decreases lines.len(),
{
    if lines.len() == 0 {
        spec_flush(base, cur, br)
    } else {
        let line = lines[0];
        if spec_has_prefix(line, "worktree "@) {
            spec_flush(base, cur, br) + spec_worktrees_under(
                lines.drop_first(),
                base,
                Some(line.skip("worktree "@.len() as int)),
                None,
            )
        } else if spec_has_prefix(line, "branch refs/heads/"@) {
            spec_worktrees_under(
                lines.drop_first(),
                base,
                cur,
                Some(line.skip("branch refs/heads/"@.len() as int)),
            )
        } else {
            spec_worktrees_under(lines.drop_first(), base, cur, br)
        }
    }
}

/// The entry a saved path and branch contribute, when the path lies
/// under the base.
pub open spec fn spec_flush(
    base: Seq<char>,
    cur: Option<Seq<char>>,
    br: Option<Seq<char>>,
) -> Seq<WorktreeInfoView> {
    match cur {
        Some(p) => {
            if spec_has_prefix(p, base) {
                seq![
                    WorktreeInfoView {
                        path: p,
                        branch: match br {
                            Some(b) => b,
                            None => Seq::empty(),
                        },
                    },
                ]
            } else {
                Seq::empty()
            }
        },
        None => Seq::empty(),
    }
}


/// The view of an optional string.
pub open spec fn opt_view(o: Option<String>) -> Option<Seq<char>> {
    match o {
        Some(s) => Some(s@),
        None => None,
    }
}

/// The views of a worktree list.
pub open spec fn wt_views(s: Seq<WorktreeInfo>) -> Seq<WorktreeInfoView> {
    s.map_values(|w: WorktreeInfo| w@)
}

/// Append the entry a saved path and branch contribute, if any.
fn flush_entry(out: &mut Vec<WorktreeInfo>, base: &str, cur: &Option<String>, br: &Option<String>)
    ensures
        wt_views(final(out)@) == wt_views(old(out)@) + spec_flush(base@, opt_view(*cur), opt_view(*br)),
{
    let ghost before = out@;
    match cur {
        Some(p) => {
            if str_has_prefix(p.as_str(), base) {
                let branch = match br {
                    Some(b) => b.clone(),
                    None => String::new(),
                };
                out.push(WorktreeInfo { path: p.clone(), branch });
                proof {
                    assert(wt_views(out@) =~= wt_views(before) + spec_flush(
                        base@,
                        opt_view(*cur),
                        opt_view(*br),
                    ));
                }
            } else {
                proof {
                    assert(wt_views(out@) =~= wt_views(before) + spec_flush(
                        base@,
                        opt_view(*cur),
                        opt_view(*br),
                    ));
                }
            }
        },
        None => {
            proof {
                assert(wt_views(out@) =~= wt_views(before) + spec_flush(
                    base@,
                    opt_view(*cur),
                    opt_view(*br),
                ));
            }
        },
    }
}

/// Read a porcelain worktree listing, keeping the entries under `base`.
pub fn parse_worktree_list(stdout: &str, base: &str) -> (r: Vec<WorktreeInfo>)
    ensures
        wt_views(r@) == spec_worktrees_under(
            crate::text::spec_lines(stdout@),
            base@,
            None,
            None,
        ),
{
    let ghost all_lines = crate::text::spec_lines(stdout@);
    let lines = crate::text::split_lines(stdout);
    let mut out: Vec<WorktreeInfo> = Vec::new();
    let mut cur: Option<String> = None;
    let mut br: Option<String> = None;
    let mut i: usize = 0;
    proof {
        reveal_strlit("worktree ");
        reveal_strlit("branch refs/heads/");
        assert(lines@.map_values(|x: String| x@).skip(0) =~= all_lines);
        assert(wt_views(out@) + spec_worktrees_under(all_lines, base@, None, None)
            =~= spec_worktrees_under(all_lines, base@, None, None));
    }
    while i < lines.len()
        invariant
            i <= lines@.len(),
            all_lines == lines@.map_values(|x: String| x@),
            wt_views(out@) + spec_worktrees_under(
                all_lines.skip(i as int),
                base@,
                opt_view(cur),
                opt_view(br),
            ) == spec_worktrees_under(all_lines, base@, None, None),
        decreases lines@.len() - i,
    {
        proof {
            reveal_strlit("worktree ");
            reveal_strlit("branch refs/heads/");
            assert(all_lines.skip(i as int).drop_first() =~= all_lines.skip(i + 1));
            assert(all_lines.skip(i as int)[0] == lines@[i as int]@);
        }
        let ghost rest = all_lines.skip(i as int);
        let line = &lines[i];
        let llen = line.as_str().unicode_len();
        if str_has_prefix(line.as_str(), "worktree ") {
            let ghost before = out@;
            let ghost cur0 = opt_view(cur);
            let ghost br0 = opt_view(br);
            flush_entry(&mut out, base, &cur, &br);
            let path = line.as_str().substring_char(9, llen);
            proof {
                assert(path@ =~= lines@[i as int]@.skip("worktree "@.len() as int));
            }
            cur = Some(path.to_owned());
            br = None;
            proof {
                assert(spec_has_prefix(rest[0], "worktree "@));
                assert(spec_worktrees_under(rest, base@, cur0, br0) == spec_flush(
                    base@,
                    cur0,
                    br0,
                ) + spec_worktrees_under(
                    rest.drop_first(),
                    base@,
                    Some(rest[0].skip("worktree "@.len() as int)),
                    None,
                ));
                assert(opt_view(cur) == Some(rest[0].skip("worktree "@.len() as int)));
                assert(wt_views(out@) + spec_worktrees_under(
                    all_lines.skip(i + 1),
                    base@,
                    opt_view(cur),
                    opt_view(br),
                ) =~= wt_views(before) + spec_worktrees_under(rest, base@, cur0, br0));
            }
        } else if str_has_prefix(line.as_str(), "branch refs/heads/") {
            let b = line.as_str().substring_char(18, llen);
            proof {
                assert(b@ =~= lines@[i as int]@.skip("branch refs/heads/"@.len() as int));
            }
            br = Some(b.to_owned());
        } else {
        }
        i = i + 1;
    }
    proof {
        assert(all_lines.skip(i as int) =~= Seq::<Seq<char>>::empty());
    }
    flush_entry(&mut out, base, &cur, &br);
    out
}

// ── The cleanup report ──

/// What a startup cleanup did: counts of runs failed, branches deleted
/// and orphaned worktree directories removed, and the branches kept for
/// manual review.
#[derive(Debug)]
pub struct CleanupReport {
    pub runs_marked_failed: u64,
    pub branches_deleted: u64,
    pub worktrees_removed: u64,
    pub unmerged_branches: Vec<String>,
}

/// A text list with `, ` between the entries.
pub open spec fn spec_join_comma(items: Seq<Seq<char>>) -> Seq<char>
    decreases items.len(),
{
    if items.len() == 0 {
        Seq::empty()
    } else if items.len() == 1 {
        items[0]
    } else {
        spec_join_comma(items.drop_last()) + ", "@ + items.last()
    }
}

/// The one-line (or two-line) human summary of a cleanup report.
pub open spec fn spec_report_message(r: CleanupReport) -> Seq<char> {
    let head = "Cleanup: "@ + crate::text::spec_u64_str(r.runs_marked_failed as nat)
        + " runs marked failed, "@ + crate::text::spec_u64_str(r.branches_deleted as nat)
        + " branches deleted, "@ + crate::text::spec_u64_str(r.worktrees_removed as nat)
        + " worktree dirs removed"@;
    if r.unmerged_branches@.len() > 0 {
        head + "\nUnmerged branches (need manual review): "@ + spec_join_comma(
            crate::graph::str_views(r.unmerged_branches@),
        )
    } else {
        head
    }
}

impl CleanupReport {
    /// An empty report.
    pub fn new() -> (r: CleanupReport)
        ensures
            r.runs_marked_failed == 0,
            r.branches_deleted == 0,
            r.worktrees_removed == 0,
            r.unmerged_branches@.len() == 0,
    {
        CleanupReport {
            runs_marked_failed: 0,
            branches_deleted: 0,
            worktrees_removed: 0,
            unmerged_branches: Vec::new(),
        }
    }

    /// Render the report for an operator.
    pub fn to_message(&self) -> (r: String)
        ensures
            r@ == spec_report_message(*self),
    {
        let mut out = String::from_str("Cleanup: ");
        let n1 = crate::text::u64_to_string(self.runs_marked_failed);
        out.append(n1.as_str());
        out.append(" runs marked failed, ");
        let n2 = crate::text::u64_to_string(self.branches_deleted);
        out.append(n2.as_str());
        out.append(" branches deleted, ");
        let n3 = crate::text::u64_to_string(self.worktrees_removed);
        out.append(n3.as_str());
        out.append(" worktree dirs removed");
        if self.unmerged_branches.len() > 0 {
            out.append("\nUnmerged branches (need manual review): ");
            let items = &self.unmerged_branches;
            let mut i: usize = 0;
            let mut joined = String::new();
            while i < items.len()
                invariant
                    i <= items@.len(),
                    joined@ == spec_join_comma(crate::graph::str_views(items@).take(i as int)),
                decreases items@.len() - i,
            {
                if i > 0 {
                    joined.append(", ");
                }
                joined.append(items[i].as_str());
                proof {
                    let vs = crate::graph::str_views(items@);
                    assert(vs.take(i + 1).drop_last() =~= vs.take(i as int));
                    assert(vs.take(i + 1).last() == vs[i as int]);
                    if i == 0 {
                        assert(joined@ =~= spec_join_comma(vs.take(i + 1)));
                    }
                }
                i = i + 1;
            }
            proof {
                assert(crate::graph::str_views(items@).take(i as int) =~= crate::graph::str_views(
                    items@,
                ));
            }
            out.append(joined.as_str());
        }
        proof {
            assert(out@ =~= spec_report_message(*self));
        }
        out
    }
}

} // verus!
