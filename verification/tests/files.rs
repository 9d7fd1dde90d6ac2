use data_browser::components::browser_list::view::{self as browser, BrowserItem};
use data_browser::components::file_list::{
    amount_text, format_bytes, items_or_message, render_item, FileRow, FileStatus, ItemActions, Listed, Tone,
};
use data_browser::components::task_manager::manager::{TaskKind, TaskManager};

fn actions() -> ItemActions<'static> {
    ItemActions {
        browse: Some("browse"),
        view_local: Some("view"),
        view_remote: Some("peek"),
        download: Some("download"),
        delete: Some("delete"),
    }
}

fn row(status: FileStatus) -> FileRow {
    FileRow {
        identifier: "p/dem.tif".to_string(),
        name: "dem.tif".to_string(),
        title: "dem.tif".to_string(),
        status,
    }
}

#[test]
fn bytes_are_told_with_one_decimal() {
    assert_eq!(format_bytes(512), "512 B");
    assert_eq!(format_bytes(1024), "1.0 KB");
    assert_eq!(format_bytes(12_897_485), "12.3 MB");
    for size in [1_075u64, 1_126, 1_331, 10_239, 1_048_575, 9_960_000, u64::MAX] {
        let units = ["B", "KB", "MB", "GB", "TB"];
        let mut value = size as f64;
        let mut unit = 0;
        while value >= 1024.0 && unit < 4 {
            value /= 1024.0;
            unit += 1;
        }
        assert_eq!(format_bytes(size), format!("{:.1} {}", value, units[unit]));
    }
}

#[test]
fn an_amount_is_told_as_far_as_it_is_known() {
    assert_eq!(amount_text(0, 0, Some("0")), "Starting...");
    assert_eq!(amount_text(2048, 0, Some("0")), "2.0 KB");
    assert_eq!(amount_text(1024, 2048, Some("50")), "1.0 KB / 2.0 KB (50%)");
    assert_eq!(amount_text(1024, 2048, None), "1.0 KB / 2.0 KB");
}

#[test]
fn a_row_offers_what_its_state_allows() {
    let glyphs = |status: FileStatus| -> Vec<char> {
        render_item(&row(status), actions(), "50").buttons.iter().map(|button| button.glyph).collect()
    };
    assert_eq!(glyphs(FileStatus::Folder), Vec::<char>::new());
    assert_eq!(glyphs(FileStatus::Remote), ['\u{f06e}', '\u{f019}']);
    assert_eq!(glyphs(FileStatus::Downloading { done: 1, total: 2 }), ['\u{f04c}', '\u{f1f8}']);
    assert_eq!(glyphs(FileStatus::Paused { done: 1, total: 2 }), ['\u{f04b}', '\u{f1f8}']);
    assert_eq!(glyphs(FileStatus::Complete { size: 2 }), ['\u{f06e}', '\u{f021}', '\u{f1f8}']);

    let done = render_item(&row(FileStatus::Complete { size: 2048 }), actions(), "");
    assert_eq!(done.amount, "2.0 KB");
    let press = done.press.expect("скачанное открывается");
    assert_eq!((press.method.as_str(), press.value.as_str()), ("view", "dem.tif"));
    assert_eq!(done.buttons[1].tone, Tone::Reload);
    assert_eq!(done.buttons[1].press.value, "p/dem.tif");

    let folder = render_item(&row(FileStatus::Folder), actions(), "");
    assert_eq!(folder.icon, '\u{f07b}');
    assert_eq!(folder.press.expect("в папку заходят").value, "p/dem.tif");
}

#[test]
fn what_could_only_fail_is_not_offered() {
    let nameless = FileRow { identifier: String::new(), name: String::new(), ..row(FileStatus::Remote) };
    assert!(render_item(&nameless, actions(), "").buttons.is_empty());
    let silent = render_item(&row(FileStatus::Remote), ItemActions::default(), "");
    assert!(silent.buttons.is_empty() && silent.press.is_none());
}

#[test]
fn a_list_without_rows_says_so() {
    match items_or_message(&Vec::new(), actions(), &Vec::new(), "пусто") {
        Listed::Message(said) => assert_eq!(said, "пусто"),
        Listed::Items(_) => panic!("строк нет"),
    }
}

fn download(manager: &mut TaskManager, id: &str, key: &str) {
    manager.spawn(
        id.to_string(),
        TaskKind::Download {
            task_id: id.to_string(),
            s3_key: key.to_string(),
            filename: "dem.tif".to_string(),
        },
    );
}

#[test]
fn tasks_are_followed_to_their_end() {
    let mut manager = TaskManager::default();
    download(&mut manager, "1", "p/a");
    download(&mut manager, "2", "p/b");
    manager.spawn("3".to_string(), TaskKind::Browse { path: "p".to_string() });
    assert_eq!(manager.active_count(), 3);
    assert_eq!(manager.get("3").map(|task| task.kind.title()), Some("Browsing /p".to_string()));

    manager.update_download_progress("1", 2.0f32.to_bits(), 10, 20);
    let task = manager.get("1").expect("задача есть");
    assert_eq!((f32::from_bits(task.progress), task.bytes_downloaded, task.total_bytes), (1.0, 10, 20));
    manager.update_download_progress("1", (-0.5f32).to_bits(), 10, 20);
    assert_eq!(manager.get("1").map(|task| f32::from_bits(task.progress)), Some(0.0));
    manager.update_download_progress("1", 0.25f32.to_bits(), 10, 20);
    assert_eq!(manager.get("1").map(|task| f32::from_bits(task.progress)), Some(0.25));

    assert!(manager.active_download("p/a").is_some());
    manager.finish("1");
    assert!(manager.active_download("p/a").is_none());
    manager.fail("2", "HTTP 403".to_string());
    assert_eq!(manager.completed().len(), 1);
    assert!(manager.has_active());
    manager.cleanup_completed();
    assert!(!manager.contains("1") && !manager.contains("2") && manager.contains("3"));
    manager.remove("3");
    assert!(!manager.has_active());
}

#[test]
fn what_a_task_does_is_in_its_title() {
    let image = TaskKind::ImageLoad { path: "p/a.tif".to_string(), filename: "a.tif".to_string() };
    assert_eq!(image.title(), "Loading a.tif");
    assert_eq!(TaskKind::Search { query: "s2".to_string() }.title(), "Search: s2");
    assert!(!image.matches_key("p/a.tif"));
}

fn item(local: Option<&str>, is_partial: bool) -> BrowserItem {
    BrowserItem {
        name: "dem.tif".to_string(),
        s3_key: "p/dem.tif".to_string(),
        local_path: local.map(|path| path.to_string()),
        is_partial,
        size: 2048,
        is_folder: false,
    }
}

#[test]
fn a_record_that_downloads_can_be_paused() {
    let actions = browser::ItemActions {
        browse: Some("browse"),
        view: Some("view"),
        download: Some("download"),
        delete: Some("delete"),
    };
    let mut manager = TaskManager::default();
    let items = vec![item(None, false), item(Some("d/dem.tif"), false), item(Some("d/dem.tif.part"), true)];
    let percents = vec![String::new(), String::new(), String::new()];
    let glyphs = |drawn: &browser::Drawn| -> Vec<char> {
        drawn.buttons.iter().map(|button| button.glyph).collect()
    };

    let drawn = browser::render_list(&items, &manager, actions, &percents);
    assert_eq!(glyphs(&drawn[0]), ['\u{f019}']);
    assert_eq!(glyphs(&drawn[1]), ['\u{f06e}', '\u{f021}', '\u{f1f8}']);
    assert_eq!(glyphs(&drawn[2]), ['\u{f021}', '\u{f1f8}']);
    assert_eq!(drawn[2].words, ["Incomplete", "2.0 KB"]);
    assert!(drawn[1].press.is_some() && drawn[2].press.is_none());

    download(&mut manager, "1", "p/dem.tif");
    let drawn = browser::render_list(&items, &manager, actions, &percents);
    assert_eq!(glyphs(&drawn[0]), ['\u{f04c}']);
    assert_eq!(glyphs(&drawn[2]), ['\u{f04c}', '\u{f1f8}']);
    assert_eq!(drawn[0].words, ["Downloading..."]);
    manager.update_download_progress("1", 0.5f32.to_bits(), 1024, 2048);
    let drawn = browser::render_item(&items[0], manager.active_download("p/dem.tif"), actions, "50");
    assert_eq!(drawn.words, ["1.0 KB / 2.0 KB (50%)"]);
}
