use fyler_app::pane::PaneId;
use fyler_app::picker::{
    latest_request, picker_hit, CatalogChange, CatalogService, IndexOutcome, IndexStep, RootKey,
    SearchCandidate, SearchCatalog, SearchGeneration, PICKER_RESULT_LIMIT,
};
use fyler_app::tree::{EntryKind, TreePath};

fn file(display: &str) -> SearchCandidate {
    SearchCandidate::new(display.to_owned(), EntryKind::File, false)
}

fn dir(display: &str) -> SearchCandidate {
    SearchCandidate::new(display.to_owned(), EntryKind::Dir, false)
}

fn names(display: &str) -> Option<Vec<String>> {
    Some(display.split('/').map(str::to_owned).collect())
}

fn gone(display: &str) -> CatalogChange {
    CatalogChange { names: names(display), candidate: Ok(None) }
}

fn there(candidate: SearchCandidate) -> CatalogChange {
    CatalogChange { names: names(&candidate.display.clone()), candidate: Ok(Some(candidate)) }
}

fn shown(catalog: &SearchCatalog) -> Vec<String> {
    catalog.searchable().into_iter().map(|candidate| candidate.display).collect()
}

#[test]
fn catalog_is_shared_until_the_last_pane_leaves_the_root() {
    let mut service = CatalogService::new();
    let root = RootKey(1);
    assert!(service.ensure(root));
    service.register_pane(PaneId(1), root);
    service.register_pane(PaneId(2), root);

    assert!(service.remove_pane(PaneId(1)).is_empty());
    assert!(service.has(root));

    assert_eq!(service.remove_pane(PaneId(2)), [root]);
    assert!(!service.has(root));
}

#[test]
fn build_batch_directory_is_tombstoned_through_dir_index() {
    let mut catalog = SearchCatalog::new();
    catalog.append_build_batch(vec![dir("built-dir"), file("built-dir/child")]);
    assert_eq!(catalog.indexed_count(), 2);

    catalog.update_overlay(vec![gone("built-dir")]);

    assert!(shown(&catalog).is_empty());
    assert!(catalog.is_removed("built-dir"));
}

#[test]
fn overlay_create_delete_rename_and_directory_delete_affect_search() {
    let mut catalog = SearchCatalog::new();
    catalog.append_build_batch(vec![
        file("old.txt"),
        file("deleted.txt"),
        dir("dir"),
        file("dir/child.txt"),
    ]);
    catalog.update_overlay(vec![
        there(file("created.txt")),
        gone("deleted.txt"),
        gone("dir"),
        gone("old.txt"),
        there(file("renamed.txt")),
    ]);
    assert_eq!(shown(&catalog), ["created.txt", "renamed.txt"]);
}

#[test]
fn deleting_directory_tombstones_overlay_added_descendants() {
    let mut catalog = SearchCatalog::new();
    catalog.update_overlay(vec![there(dir("X")), there(file("X/a"))]);
    assert_eq!(shown(&catalog), ["X", "X/a"]);

    catalog.update_overlay(vec![gone("X")]);
    assert!(shown(&catalog).is_empty());
}

#[test]
fn changes_keep_places_apart() {
    let mut catalog = SearchCatalog::new();
    catalog.append_build_batch(vec![file("a"), file("b")]);
    catalog.update_place("a", None);
    assert_eq!(shown(&catalog), ["b"]);
    catalog.update_place("a", Some(file("a")));
    assert_eq!(shown(&catalog), ["b", "a"]);
}

#[test]
fn catalog_says_how_far_it_is() {
    let mut catalog = SearchCatalog::new();
    assert!(catalog.is_indexing());
    catalog.finish();
    assert!(!catalog.is_indexing());
    assert!(!catalog.is_cancelled());
    catalog.stop();
    assert!(catalog.is_cancelled());
}

#[test]
fn changed_root_lets_go_of_the_old_catalog() {
    let mut service = CatalogService::new();
    service.register_pane(PaneId(1), RootKey(1));
    service.ensure(RootKey(1));
    assert!(!service.ensure(RootKey(1)));
    assert_eq!(service.change_root(PaneId(1), RootKey(2)), [RootKey(1)]);
    assert!(!service.has(RootKey(1)));
    service.ensure(RootKey(2));
    assert!(service.invalidate(RootKey(2)));
    assert!(!service.has(RootKey(2)));
}

#[test]
fn older_searches_do_not_count() {
    let mut generation = SearchGeneration::new();
    let first = generation.request();
    let second = generation.request();
    assert!(!generation.accepts(first));
    assert!(generation.accepts(second));
    generation.invalidate_pending();
    assert!(!generation.accepts(second));
}

#[test]
fn hit_names_the_place_of_its_candidate() {
    let hit = picker_hit(&file("a/b.txt"));
    assert_eq!(hit.path, TreePath::parse("a/b.txt"));
    assert_eq!(hit.display, "a/b.txt");
    assert_eq!(hit.kind, EntryKind::File);
    assert_eq!(PICKER_RESULT_LIMIT, 100);
}

#[test]
fn search_worker_latest_query_wins() {
    let mut catalog = SearchCatalog::new();
    catalog.append_build_batch(
        (0..50_000).map(|index| file(&format!("item-{index:05}.txt"))).collect(),
    );
    let mut generation = SearchGeneration::new();
    let first = (generation.request(), "item");
    let second = (generation.request(), "49999");
    let stale = first.0;
    let (latest, query) = latest_request(first, vec![second]);
    assert_eq!(query, "49999");
    let found = catalog
        .searchable()
        .into_iter()
        .filter(|candidate| candidate.display.contains(query))
        .collect::<Vec<_>>();
    assert!(generation.results(stale, &found).is_none());
    let results = generation.results(latest, &found).unwrap();
    assert_eq!(results.len(), 1);
    assert_eq!(results[0].display, "item-49999.txt");
    assert_eq!(latest_request(1, Vec::new()), 1);
}

#[test]
fn catalog_that_cannot_be_made_keeps_nobody_waiting() {
    let mut catalog = SearchCatalog::new();
    assert_eq!(catalog.on_indexed(IndexOutcome::Stopped), IndexStep::Nothing);
    assert!(catalog.is_indexing());
    assert_eq!(
        catalog.on_indexed(IndexOutcome::Failed("denied".to_owned())),
        IndexStep::Changed { error: Some("Failed to index files: denied".to_owned()) }
    );
    assert!(!catalog.is_indexing());
    assert_eq!(
        SearchCatalog::new().on_indexed(IndexOutcome::NotStarted),
        IndexStep::Changed { error: Some("Failed to start file indexing worker".to_owned()) }
    );
    assert_eq!(
        SearchCatalog::new().on_indexed(IndexOutcome::Finished),
        IndexStep::Changed { error: None }
    );
}
