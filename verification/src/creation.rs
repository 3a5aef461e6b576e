//! Where new workspaces come from and which workspace a new pane belongs
//! to.

use vstd::prelude::*;

use crate::pinned_path::{path_claims, path_depth, path_depth_of, spec_path_claims};

verus! {

/// The workspace a new workspace is created from: the selected one while
/// navigating, otherwise the active one, falling back to the selected one.
/// Indices at or past `workspace_count` name no workspace.
pub open spec fn spec_creation_source(navigating: bool, selected: usize, active: Option<usize>, workspace_count: usize) -> Option<
    usize,
> {
    if navigating && selected < workspace_count {
        Some(selected)
    } else if active is Some {
        active
    } else if selected < workspace_count {
        Some(selected)
    } else {
        None
    }
}

pub fn workspace_creation_source(navigating: bool, selected: usize, active: Option<usize>, workspace_count: usize) -> (r:
    Option<usize>)
    ensures
        r == spec_creation_source(navigating, selected, active, workspace_count),
{
    if navigating && selected < workspace_count {
        return Some(selected);
    }
    match active {
        Some(a) => Some(a),
        None => if selected < workspace_count {
            Some(selected)
        } else {
            None
        },
    }
}

/// The text of each workspace's pinned path.
pub open spec fn pin_texts(pins: Seq<Option<String>>) -> Seq<Option<Seq<char>>> {
    pins.map_values(
        |p: Option<String>|
            match p {
                Some(s) => Some(s@),
                None => None,
            },
    )
}

/// How deep the pin that claims `cwd` is, or `None` when there is no pin
/// or it does not claim `cwd`.
pub open spec fn claim_depth(pin: Option<Seq<char>>, cwd: Seq<char>) -> Option<nat> {
    match pin {
        Some(p) => if spec_path_claims(p, cwd) {
            Some(path_depth(p))
        } else {
            None
        },
        None => None,
    }
}

/// Among the first `n` workspaces other than `source`, the one whose pin
/// claims `cwd` most deeply, with that depth; on a tie the later one.
pub open spec fn best_claim(pins: Seq<Option<Seq<char>>>, cwd: Seq<char>, source: int, n: nat) -> Option<(int, nat)>
    decreases n,
{
    if n == 0 {
        None
    } else {
        let prev = best_claim(pins, cwd, source, (n - 1) as nat);
        let i = n - 1;
        match claim_depth(pins[i], cwd) {
            Some(d) => if i != source {
                match prev {
                    None => Some((i, d)),
                    Some((j, e)) => if d >= e {
                        Some((i, d))
                    } else {
                        prev
                    },
                }
            } else {
                prev
            },
            None => prev,
        }
    }
}

/// The workspace that takes a pane whose directory is `cwd` away from
/// workspace `source`: the deepest other claimant, unless the source's own
/// pin claims `cwd` at least as deeply.
pub open spec fn spec_claiming_workspace(pins: Seq<Option<Seq<char>>>, cwd: Seq<char>, source: int) -> Option<int> {
    match best_claim(pins, cwd, source, pins.len()) {
        None => None,
        Some((c, d)) => {
            let own = if 0 <= source < pins.len() {
                claim_depth(pins[source], cwd)
            } else {
                None
            };
            match own {
                None => Some(c),
                Some(s) => if s < d {
                    Some(c)
                } else {
                    None
                },
            }
        },
    }
}

/// `best_claim` is the deepest claim among the workspaces it looks at.
proof fn lemma_best_claim(pins: Seq<Option<Seq<char>>>, cwd: Seq<char>, source: int, n: nat)
    requires
        n <= pins.len(),
    ensures
        best_claim(pins, cwd, source, n) is None <==> forall|j: int|
            0 <= j < n && j != source ==> (#[trigger] claim_depth(pins[j], cwd)) is None,
        best_claim(pins, cwd, source, n) matches Some((c, d)) ==> {
            &&& 0 <= c < n && c != source
            &&& claim_depth(pins[c], cwd) == Some(d)
            &&& forall|j: int|
                0 <= j < n && j != source && (#[trigger] claim_depth(pins[j], cwd)) is Some
                    ==> claim_depth(pins[j], cwd)->0 <= d
        },
    decreases n,
{
    if n > 0 {
        lemma_best_claim(pins, cwd, source, (n - 1) as nat);
    }
}

/// The workspace whose pinned path claims `cwd`, if it is not `source`,
/// the one the pane is already in. `pins` holds each workspace's pinned
/// path, and `cwd` the pane's directory, both with symlinks resolved where
/// they exist. The deepest pinned path wins, so a worktree pinned under its
/// repo takes precedence over the repo; on a tie the later workspace. The
/// pane's own workspace competes on depth too: nothing pulls a pane towards
/// a pin no more specific than the one it already sits under, so two
/// workspaces pinned to one directory never trade a pane back and forth.
pub fn claiming_workspace(pins: &[Option<String>], cwd: &str, source: usize) -> (r: Option<usize>)
    ensures
        r == match spec_claiming_workspace(pin_texts(pins@), cwd@, source as int) {
            Some(c) => Some(c as usize),
            None => None,
        },
        r matches Some(c) ==> {
            let t = pin_texts(pins@);
            &&& c < pins@.len() && c != source
            &&& claim_depth(t[c as int], cwd@) is Some
            &&& forall|j: int|
                0 <= j < pins@.len() && j != source && (#[trigger] claim_depth(t[j], cwd@)) is Some
                    ==> claim_depth(t[j], cwd@)->0 <= claim_depth(t[c as int], cwd@)->0
            &&& source < pins@.len() && claim_depth(t[source as int], cwd@) is Some ==> claim_depth(
                t[source as int],
                cwd@,
            )->0 < claim_depth(t[c as int], cwd@)->0
        },
        r is None ==> forall|j: int|
            0 <= j < pins@.len() && j != source && (#[trigger] claim_depth(pin_texts(pins@)[j], cwd@)) is Some
                ==> source < pins@.len() && claim_depth(pin_texts(pins@)[source as int], cwd@) is Some
                && claim_depth(pin_texts(pins@)[j], cwd@)->0 <= claim_depth(
                pin_texts(pins@)[source as int],
                cwd@,
            )->0,
{
    let ghost t = pin_texts(pins@);
    let mut best: Option<(usize, usize)> = None;
    let mut i: usize = 0;
    while i < pins.len()
        invariant
            i <= pins@.len(),
            t == pin_texts(pins@),
            match best {
                None => best_claim(t, cwd@, source as int, i as nat) is None,
                Some((c, d)) => best_claim(t, cwd@, source as int, i as nat) == Some((c as int, d as nat)),
            },
        decreases pins@.len() - i,
    {
        let depth = match &pins[i] {
            Some(pinned) => if path_claims(pinned.as_str(), cwd) {
                Some(path_depth_of(pinned.as_str()))
            } else {
                None
            },
            None => None,
        };
        assert(depth matches Some(d) ==> claim_depth(t[i as int], cwd@) == Some(d as nat));
        assert(depth is None ==> claim_depth(t[i as int], cwd@) is None);
        if let Some(d) = depth {
            if i != source {
                best = match best {
                    None => Some((i, d)),
                    Some((j, e)) => if d >= e {
                        Some((i, d))
                    } else {
                        Some((j, e))
                    },
                };
            }
        }
        i += 1;
    }
    proof {
        lemma_best_claim(t, cwd@, source as int, pins@.len());
    }
    let (claimant, depth) = match best {
        Some(found) => found,
        None => {
            return None;
        },
    };
    let own = if source < pins.len() {
        match &pins[source] {
            Some(pinned) => if path_claims(pinned.as_str(), cwd) {
                Some(path_depth_of(pinned.as_str()))
            } else {
                None
            },
            None => None,
        }
    } else {
        None
    };
    assert(source < pins@.len() ==> (own matches Some(d) ==> claim_depth(t[source as int], cwd@) == Some(
        d as nat,
    )));
    assert(source < pins@.len() ==> (own is None ==> claim_depth(t[source as int], cwd@) is None));
    match own {
        None => Some(claimant),
        Some(s) => if s < depth {
            Some(claimant)
        } else {
            None
        },
    }
}

/// What becomes of a pane whose shell reported a new working directory.
#[derive(Debug, PartialEq, Eq)]
pub enum Reclaim {
    /// The pane stays where it is.
    Stay,
    /// The pane moves into the workspace at `workspace`, which claims the
    /// directory, and the user follows it there when `focus`.
    MoveTo { workspace: usize, focus: bool },
    /// The pane's own workspace started at the declared repo `repo`: it is
    /// pinned there, in place.
    PinSource { repo: String },
    /// The pane moves into a new workspace pinned to the declared repo
    /// `repo`.
    NewRepoWorkspace { repo: String },
}

/// Whether the pane's own workspace is pinned under `cwd`.
pub open spec fn source_pin_claims(pins: Seq<Option<String>>, source: usize, cwd: Seq<char>) -> bool {
    source < pins.len() && (pins[source as int] matches Some(p) && spec_path_claims(p@, cwd))
}

/// Decide what becomes of a pane in workspace `source` whose shell reported
/// `cwd` as its new directory. Only a report that was taken as the pane's
/// directory (`cwd_stored`) at an idle prompt (not `busy` with a foreground
/// process or an agent) moves anything: into another workspace pinned
/// under `cwd` (`pins`, each workspace's pinned path, deepest claim first),
/// following the pane when it is the one the user sits in (`focus`).
/// Failing that, the pane the user sits in, in a workspace not itself
/// pinned under `cwd`, founds the workspace of the declared repo holding
/// `cwd` (`declared_repo`): by pinning its own workspace when that started
/// at the repo (its `source_identity_cwd` lies under it), else by moving
/// into a new one.
#[allow(clippy::too_many_arguments)]
pub fn reclaim_after_cwd_change(
    pins: &[Option<String>],
    source: usize,
    cwd: &str,
    cwd_stored: bool,
    busy: bool,
    focus: bool,
    declared_repo: Option<String>,
    source_identity_cwd: &str,
) -> (r: Reclaim)
    ensures
        !cwd_stored || busy ==> r == Reclaim::Stay,
        cwd_stored && !busy ==> match spec_claiming_workspace(pin_texts(pins@), cwd@, source as int) {
            Some(t) => r == Reclaim::MoveTo { workspace: t as usize, focus },
            None => if !focus || source_pin_claims(pins@, source, cwd@) {
                r == Reclaim::Stay
            } else {
                match declared_repo {
                    None => r == Reclaim::Stay,
                    Some(repo) => if spec_path_claims(repo@, source_identity_cwd@) {
                        r matches Reclaim::PinSource { repo: p } && p@ == repo@
                    } else {
                        r matches Reclaim::NewRepoWorkspace { repo: p } && p@ == repo@
                    },
                }
            },
        },
{
    if !cwd_stored || busy {
        return Reclaim::Stay;
    }
    if let Some(t) = claiming_workspace(pins, cwd, source) {
        return Reclaim::MoveTo { workspace: t, focus };
    }
    let source_claims = source < pins.len() && match &pins[source] {
        Some(p) => path_claims(p.as_str(), cwd),
        None => false,
    };
    if !focus || source_claims {
        return Reclaim::Stay;
    }
    match declared_repo {
        None => Reclaim::Stay,
        Some(repo) => if path_claims(repo.as_str(), source_identity_cwd) {
            Reclaim::PinSource { repo }
        } else {
            Reclaim::NewRepoWorkspace { repo }
        },
    }
}

/// Where a new terminal starts.
#[derive(Debug, Clone, PartialEq, Eq)]
pub enum NewTerminalCwd {
    /// The directory of the pane it was opened from.
    Follow,
    /// The home directory.
    Home,
    /// The directory the program runs in.
    Current,
    /// A fixed directory, its `~` already expanded.
    Path(String),
}

/// The directory a new terminal starts in under `policy`, given the
/// directory to follow, the home directory and the program's directory
/// when they are known; `/` when none of the candidates is.
pub fn resolve_new_terminal_cwd(
    policy: NewTerminalCwd,
    follow_cwd: Option<String>,
    home: Option<String>,
    current_dir: Option<String>,
) -> (r: String)
    ensures
        r@ == match policy {
            NewTerminalCwd::Follow => match (follow_cwd, home, current_dir) {
                (Some(f), _, _) => f@,
                (None, Some(h), _) => h@,
                (None, None, Some(c)) => c@,
                (None, None, None) => "/"@,
            },
            NewTerminalCwd::Home => match (home, current_dir) {
                (Some(h), _) => h@,
                (None, Some(c)) => c@,
                (None, None) => "/"@,
            },
            NewTerminalCwd::Current => match current_dir {
                Some(c) => c@,
                None => "/"@,
            },
            NewTerminalCwd::Path(p) => p@,
        },
{
    match policy {
        NewTerminalCwd::Follow => match follow_cwd {
            Some(f) => f,
            None => match home {
                Some(h) => h,
                None => match current_dir {
                    Some(c) => c,
                    None => String::from_str("/"),
                },
            },
        },
        NewTerminalCwd::Home => match home {
            Some(h) => h,
            None => match current_dir {
                Some(c) => c,
                None => String::from_str("/"),
            },
        },
        NewTerminalCwd::Current => match current_dir {
            Some(c) => c,
            None => String::from_str("/"),
        },
        NewTerminalCwd::Path(p) => p,
    }
}

} // verus!
