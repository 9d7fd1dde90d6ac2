use data_browser::components::variables::{items, Named, LISTED};
use data_browser::message::Msg;

fn named(path: &'static str, units: &'static str) -> Named<'static> {
    Named { path, said: "", units }
}

#[test]
fn the_list_names_every_variable_and_marks_the_shown_one() {
    let pick = |path: String| Msg::OverlayVariable("k".into(), path);
    let few = [named("/PRODUCT/a", "K"), named("/PRODUCT/b", "")];
    let listed = items(&few, "/PRODUCT/b", pick);
    assert_eq!(listed.iter().map(|item| item.named()).collect::<Vec<_>>(), ["a, K", "b"]);
    assert_eq!(listed.iter().map(|item| item.marked()).collect::<Vec<_>>(), [false, true]);
    assert!(items(&few, "", pick).iter().all(|item| !item.marked()), "без показанной галочка лишняя");

    let paths: Vec<String> = (0..LISTED + 5).map(|at| format!("/v{at}")).collect();
    let many: Vec<Named<'_>> = paths.iter().map(|path| Named { path, said: "", units: "" }).collect();
    let listed = items(&many, "/v0", pick);
    assert_eq!(listed.len(), LISTED + 1);
    assert_eq!(listed.last().map(|item| item.named()), Some("и ещё 5"));
    assert!(listed[0].marked() && !listed[1].marked());

    let listed = items(&many, "/v20", pick);
    assert_eq!(listed.len(), LISTED + 1);
    assert_eq!(listed[LISTED - 1].named(), "v20");
    assert!(listed[LISTED - 1].marked() && !listed[0].marked());
    assert_eq!(listed.last().map(|item| item.named()), Some("и ещё 5"));
}
