use cargo_mend::facade_paths::PathOrigin;
use cargo_mend::facade_paths::UseRename;
use cargo_mend::facade_scan::ExtractedPath;
use cargo_mend::path_index::PathsByFinalSegment;

fn segments(text: &str) -> Vec<String> {
    if text.is_empty() { Vec::new() } else { text.split("::").map(str::to_string).collect() }
}

fn path(text: &str) -> ExtractedPath {
    ExtractedPath { segments: segments(text), origin: PathOrigin::Relative, module_suffix: Vec::new() }
}

fn rename(alias: &str, original: &str, suffix: &str) -> UseRename {
    UseRename { alias: alias.to_string(), original_path: segments(original), module_suffix: segments(suffix) }
}

fn names(items: &[&str]) -> Vec<String> { items.iter().map(|item| item.to_string()).collect() }

#[test]
fn candidates_follow_the_segments_then_the_anchor_final_paths() {
    let paths = vec![
        path("crate::a::Thing"),
        path("super"),
        path("b::r#Other"),
        path("Thing"),
        path(""),
        path("self::Self"),
        path("c::Other"),
    ];
    let index = PathsByFinalSegment::index_by_final_segment(&paths, &Vec::new());
    assert_eq!(index.candidates(&names(&["Thing"])), vec![0, 3, 1, 4]);
    assert_eq!(index.candidates(&names(&["Other", "Thing"])), vec![2, 6, 0, 3, 1, 4]);
    assert_eq!(index.candidates(&names(&["Self"])), vec![5, 1, 4]);
    assert_eq!(index.candidates(&names(&["Missing"])), vec![1, 4]);
}

#[test]
fn a_path_reached_through_two_segments_appears_twice() {
    let paths = vec![path("a::Thing")];
    let index = PathsByFinalSegment::index_by_final_segment(&paths, &Vec::new());
    assert_eq!(index.candidates(&names(&["Thing", "Thing"])), vec![0, 0]);
}

#[test]
fn inserting_by_hand_groups_by_the_unprefixed_name() {
    let mut index = PathsByFinalSegment::new();
    index.insert(7, Some("r#type"));
    index.insert(3, Some("type"));
    index.insert(9, Some("crate"));
    index.insert(1, None);
    assert_eq!(index.candidates(&names(&["type"])), vec![7, 3, 9, 1]);
    assert_eq!(index.candidates(&Vec::new()), vec![9, 1]);
}

#[test]
fn an_alias_is_also_indexed_under_the_renamed_path() {
    // use crate::child::Thing as Alias;  ...  Alias
    let paths = vec![path("Alias"), path("Other"), path("Same")];
    let renames = vec![
        rename("Alias", "crate::child::Thing", ""),
        rename("Same", "crate::Same", ""),
        rename("Other", "crate::Elsewhere", "inner"),
    ];
    let index = PathsByFinalSegment::index_by_final_segment(&paths, &renames);
    assert_eq!(index.candidates(&names(&["Thing"])), vec![0]);
    assert_eq!(index.candidates(&names(&["Alias", "Thing"])), vec![0, 0]);
    // The rename of `Same` names the same final segment, so it adds nothing;
    // the rename of `Other` belongs to another inline module.
    assert_eq!(index.candidates(&names(&["Same", "Elsewhere"])), vec![2]);
    assert_eq!(index.candidates(&names(&["Other"])), vec![1]);
}

#[test]
fn an_alias_of_an_anchor_is_kept_with_the_anchor_final_paths() {
    let paths = vec![path("Up")];
    let renames = vec![rename("Up", "super", "")];
    let index = PathsByFinalSegment::index_by_final_segment(&paths, &renames);
    assert_eq!(index.candidates(&names(&["Up"])), vec![0, 0]);
    assert_eq!(index.candidates(&Vec::new()), vec![0]);
}
