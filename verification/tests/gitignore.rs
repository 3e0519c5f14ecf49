use myspace::ops::gitignore::{begin_marker, end_marker, managed_block, merge_gitignore};

fn names(v: &[&str]) -> Vec<String> {
    v.iter().map(|s| s.to_string()).collect()
}

#[test]
fn managed_block_lists_fixed_entries_then_members() {
    let block = managed_block(&names(&["alpha", "zeta"]));
    let expected = format!(
        "{}\n.myspace/state.toml\n.myspace/trees/\n.myspace/deps/\n/alpha/\n/zeta/\n{}\n",
        begin_marker(),
        end_marker()
    );
    assert_eq!(block, expected);
}

#[test]
fn managed_block_without_members() {
    let block = managed_block(&Vec::new());
    assert_eq!(
        block,
        "# --- managed by myspace: begin (do not edit inside this block) ---\n.myspace/state.toml\n.myspace/trees/\n.myspace/deps/\n# --- managed by myspace: end ---\n"
    );
}

#[test]
fn merge_into_empty_file_is_the_block() {
    let block = managed_block(&names(&["a"]));
    assert_eq!(merge_gitignore("", &block), block);
}

#[test]
fn merge_appends_after_user_content() {
    let block = managed_block(&names(&["a"]));
    assert_eq!(merge_gitignore("target/\n", &block), format!("target/\n\n{}", block));
    assert_eq!(merge_gitignore("target/", &block), format!("target/\n\n{}", block));
}

#[test]
fn merge_replaces_block_in_place() {
    let old = managed_block(&names(&["myrepo"]));
    let new = managed_block(&Vec::new());
    let existing = format!("# mine\ncustom.txt\n\n{}after.txt\n", old);
    let merged = merge_gitignore(&existing, &new);
    assert_eq!(merged, format!("# mine\ncustom.txt\n\n{}after.txt\n", new));
}

#[test]
fn merge_without_trailing_newline_after_end_marker() {
    let old = managed_block(&names(&["x"]));
    let trimmed = &old[..old.len() - 1];
    let new = managed_block(&names(&["y"]));
    assert_eq!(merge_gitignore(trimmed, &new), new);
}

#[test]
fn merge_appends_when_end_marker_precedes_begin() {
    let block = managed_block(&names(&["a"]));
    let existing = format!("{}\n{}\n", end_marker(), begin_marker());
    assert_eq!(merge_gitignore(&existing, &block), format!("{}\n{}", existing, block));
}

#[test]
fn regeneration_never_duplicates_the_block() {
    // A space's .gitignore after creation, with user content put in front.
    let created = managed_block(&Vec::new());
    let edited = format!("# mine\ncustom.txt\n\n{}", created);
    // `add myrepo` regenerates it.
    let added = merge_gitignore(&edited, &managed_block(&names(&["myrepo"])));
    assert!(added.contains("/myrepo/"));
    assert!(added.contains("custom.txt"));
    assert_eq!(added.matches(".myspace/trees/").count(), 1);
    // `remove myrepo` regenerates it again.
    let removed = merge_gitignore(&added, &managed_block(&Vec::new()));
    assert!(!removed.contains("/myrepo/"));
    assert!(removed.contains("custom.txt"));
    assert_eq!(removed, edited);
}

#[test]
fn regenerating_twice_equals_regenerating_once() {
    let first = managed_block(&names(&["a", "b#c"]));
    let second = managed_block(&names(&["d"]));
    for existing in ["", "user\n", "user", "x\n\n"] {
        let twice = merge_gitignore(&merge_gitignore(existing, &first), &second);
        assert_eq!(twice, merge_gitignore(existing, &second));
    }
}

#[test]
fn regeneration_with_unusual_member_names() {
    let first = managed_block(&names(&["a b", "x\ny", "#", "end ---"]));
    let second = managed_block(&names(&["z"]));
    for existing in ["", "mine\n", "mine"] {
        let once = merge_gitignore(existing, &first);
        assert_eq!(merge_gitignore(&once, &second), merge_gitignore(existing, &second));
    }
}
