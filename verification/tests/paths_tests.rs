use herdr_layout::creation::{
    claiming_workspace, reclaim_after_cwd_change, resolve_new_terminal_cwd, workspace_creation_source, NewTerminalCwd, Reclaim,
};
use herdr_layout::pinned_path::{expand_pinned_path, path_claims, path_depth_of, toggled_pin};

fn pins(list: &[Option<&str>]) -> Vec<Option<String>> {
    list.iter().map(|pin| pin.map(|p| p.to_string())).collect()
}

#[test]
fn expands_leading_tilde() {
    let home = "/home/tester";
    assert_eq!(expand_pinned_path("~/code/herdr", Some(home), Some("/srv")), format!("{home}/code/herdr"));
}

#[test]
fn leaves_absolute_paths_alone() {
    assert_eq!(expand_pinned_path("/srv/herdr", Some("/home/tester"), Some("/tmp")), "/srv/herdr");
}

#[test]
fn expansion_trims_and_resolves_relative_paths() {
    assert_eq!(expand_pinned_path("  code/herdr \n", None, Some("/work")), "/work/code/herdr");
    assert_eq!(expand_pinned_path("~", Some("/home/tester"), None), "/home/tester/");
    assert_eq!(expand_pinned_path("~//x", Some("/home/tester/"), None), "/home/tester/x");
    assert_eq!(expand_pinned_path("~other/x", Some("/home/tester"), Some("/w")), "/w/~other/x");
    assert_eq!(expand_pinned_path("~/x", None, None), "~/x");
}

#[test]
fn claims_the_pinned_directory_itself() {
    assert!(path_claims("/ws", "/ws"));
}

#[test]
fn claims_directories_below_the_pinned_path() {
    assert!(path_claims("/ws", "/ws/src/app"));
}

#[test]
fn does_not_claim_a_sibling_with_a_shared_prefix() {
    assert!(!path_claims("/ws", "/ws-worktrees"));
    assert!(!path_claims("/ws", "/ws-worktrees/a"));
}

#[test]
fn does_not_claim_a_parent_directory() {
    assert!(!path_claims("/ws/src", "/ws"));
}

#[test]
fn compares_lexically_when_paths_do_not_exist() {
    assert!(path_claims("/nonexistent-herdr-test/ws", "/nonexistent-herdr-test/ws/src"));
}

#[test]
fn claims_ignore_repeated_and_trailing_separators() {
    assert!(path_claims("/ws/", "//ws//src/./app"));
    assert_eq!(path_depth_of("/a/b"), 3);
}

#[test]
fn pins_an_unpinned_workspace_to_the_current_directory() {
    assert_eq!(toggled_pin(None, "/ws", "/ws"), Some("/ws".to_string()));
}

#[test]
fn clears_a_pin_that_already_matches_the_current_directory() {
    assert_eq!(toggled_pin(Some("/ws"), "/ws", "/ws"), None);
}

#[test]
fn repins_when_the_current_directory_moved_elsewhere() {
    assert_eq!(toggled_pin(Some("/ws"), "/other", "/other"), Some("/other".to_string()));
}

#[test]
fn a_pin_matching_the_resolved_directory_clears() {
    assert_eq!(toggled_pin(Some("/real/ws"), "/real/ws", "/link/ws"), None);
}

#[test]
fn claims_a_pane_opened_below_the_pinned_path() {
    assert_eq!(claiming_workspace(&pins(&[None, Some("/ws")]), "/ws/src", 0), Some(1));
}

#[test]
fn a_duplicate_pin_does_not_claim_a_pane_from_its_twin() {
    let twins = pins(&[Some("/ws"), Some("/ws")]);
    assert_eq!(claiming_workspace(&twins, "/ws/src", 0), None);
    assert_eq!(claiming_workspace(&twins, "/ws/src", 1), None);
}

#[test]
fn a_shallower_pin_does_not_claim_a_pane_from_a_deeper_one() {
    assert_eq!(claiming_workspace(&pins(&[Some("/a/b"), Some("/a")]), "/a/b/c", 0), None);
}

#[test]
fn a_deeper_pin_still_claims_a_pane_from_a_shallower_one() {
    assert_eq!(claiming_workspace(&pins(&[Some("/a"), Some("/a/b")]), "/a/b/c", 0), Some(1));
}

#[test]
fn does_not_claim_a_sibling_directory() {
    assert_eq!(claiming_workspace(&pins(&[None, Some("/ws")]), "/ws-worktrees/x", 0), None);
}

#[test]
fn does_not_claim_a_pane_already_in_the_claiming_workspace() {
    assert_eq!(claiming_workspace(&pins(&[Some("/ws")]), "/ws/src", 0), None);
}

#[test]
fn deepest_pinned_path_wins() {
    assert_eq!(claiming_workspace(&pins(&[None, Some("/a"), Some("/a/b")]), "/a/b/c", 0), Some(2));
}

#[test]
fn workspaces_without_a_pinned_path_never_claim() {
    assert_eq!(claiming_workspace(&pins(&[None, None]), "/ws/src", 0), None);
}

#[test]
fn equally_deep_claimants_go_to_the_later_workspace() {
    assert_eq!(claiming_workspace(&pins(&[None, Some("/ws"), Some("/ws")]), "/ws/src", 0), Some(2));
    assert_eq!(claiming_workspace(&pins(&[None, Some("/ws")]), "/ws/src", 7), Some(1));
}

#[test]
fn creation_source_prefers_the_selected_workspace_while_navigating() {
    assert_eq!(workspace_creation_source(true, 2, Some(0), 3), Some(2));
    assert_eq!(workspace_creation_source(false, 2, Some(0), 3), Some(0));
    assert_eq!(workspace_creation_source(true, 5, Some(1), 3), Some(1));
    assert_eq!(workspace_creation_source(false, 1, None, 3), Some(1));
    assert_eq!(workspace_creation_source(false, 3, None, 3), None);
}

#[test]
fn new_terminal_cwd_follows_its_policy() {
    let some = |s: &str| Some(s.to_string());
    assert_eq!(resolve_new_terminal_cwd(NewTerminalCwd::Follow, some("/f"), some("/h"), some("/c")), "/f");
    assert_eq!(resolve_new_terminal_cwd(NewTerminalCwd::Follow, None, some("/h"), some("/c")), "/h");
    assert_eq!(resolve_new_terminal_cwd(NewTerminalCwd::Follow, None, None, None), "/");
    assert_eq!(resolve_new_terminal_cwd(NewTerminalCwd::Home, some("/f"), None, some("/c")), "/c");
    assert_eq!(resolve_new_terminal_cwd(NewTerminalCwd::Current, some("/f"), some("/h"), None), "/");
    assert_eq!(resolve_new_terminal_cwd(NewTerminalCwd::Path("/p".to_string()), None, None, None), "/p");
}

#[test]
fn a_cd_into_another_pinned_workspace_moves_the_pane_there() {
    let pins = pins(&[None, Some("/repo/app"), Some("/repo")]);
    let r = reclaim_after_cwd_change(&pins, 0, "/repo/app/src", true, false, true, None, "/home");
    assert_eq!(r, Reclaim::MoveTo { workspace: 1, focus: true });
    // A background pane moves without taking the user along.
    let r = reclaim_after_cwd_change(&pins, 0, "/repo/app/src", true, false, false, None, "/home");
    assert_eq!(r, Reclaim::MoveTo { workspace: 1, focus: false });
}

#[test]
fn a_busy_pane_or_a_rejected_report_stays_put() {
    let pins = pins(&[None, Some("/repo")]);
    assert_eq!(reclaim_after_cwd_change(&pins, 0, "/repo", true, true, true, None, "/home"), Reclaim::Stay);
    assert_eq!(reclaim_after_cwd_change(&pins, 0, "/repo", false, false, true, None, "/home"), Reclaim::Stay);
}

#[test]
fn a_declared_repo_founds_its_workspace_only_from_the_focused_unpinned_pane() {
    let pins = pins(&[None, Some("/elsewhere")]);
    let repo = Some("/code/herdr".to_string());
    assert_eq!(
        reclaim_after_cwd_change(&pins, 0, "/code/herdr/src", true, false, true, repo.clone(), "/home"),
        Reclaim::NewRepoWorkspace { repo: "/code/herdr".to_string() }
    );
    // The workspace already started at the repo: it is pinned in place.
    assert_eq!(
        reclaim_after_cwd_change(&pins, 0, "/code/herdr/src", true, false, true, repo.clone(), "/code/herdr"),
        Reclaim::PinSource { repo: "/code/herdr".to_string() }
    );
    // Not the pane the user sits in, or no declared repo: nothing happens.
    assert_eq!(reclaim_after_cwd_change(&pins, 0, "/code/herdr/src", true, false, false, repo.clone(), "/home"), Reclaim::Stay);
    assert_eq!(reclaim_after_cwd_change(&pins, 0, "/code/herdr/src", true, false, true, None, "/home"), Reclaim::Stay);
    // The pane's own workspace is pinned under the directory already.
    let own = self::pins(&[Some("/code"), Some("/elsewhere")]);
    assert_eq!(reclaim_after_cwd_change(&own, 0, "/code/herdr/src", true, false, true, repo, "/home"), Reclaim::Stay);
}
