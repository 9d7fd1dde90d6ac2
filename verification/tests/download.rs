use data_browser::handlers::download::{
    on_delete_pressed, on_delete_result, on_download_pressed, on_download_progress, on_download_started,
    on_downloaded, on_read_result, on_view_pressed, on_write_result, Act, Downloads, Ending, LocalFile, Note,
    Origin, PROVIDER,
};

fn started() -> Downloads {
    let mut desk = Downloads::new();
    on_download_pressed(&mut desk, "p/dem.tif".to_string());
    on_download_started(&mut desk, "1".to_string(), "p/dem.tif".to_string());
    desk.acts.clear();
    desk
}

#[test]
fn a_download_notes_where_it_comes_from_first() {
    let mut desk = Downloads::new();
    on_download_pressed(&mut desk, String::new());
    assert!(desk.acts.is_empty());
    on_download_pressed(&mut desk, "p/dem.tif".to_string());
    let correlation = match &desk.acts[0] {
        Act::WriteNote { path, identifier, total, correlation } => {
            assert_eq!((path.as_str(), identifier.as_str()), ("downloads/dem.tif.origin", "p/dem.tif"));
            assert_eq!(*total, None);
            correlation.clone()
        }
        _ => panic!("происхождение не записано"),
    };
    assert!(
        matches!(&desk.acts[1], Act::Fetch { identifier, destination } if identifier == "p/dem.tif" && destination == "downloads/dem.tif")
    );
    assert!(on_write_result(&mut desk, &correlation));
    assert!(!on_write_result(&mut desk, &correlation));
}

#[test]
fn a_second_press_breaks_the_download_off() {
    let mut desk = started();
    on_download_pressed(&mut desk, "p/dem.tif".to_string());
    assert_eq!(desk.acts.len(), 1);
    assert!(matches!(&desk.acts[0], Act::Cancel { task } if task == "1"));
    assert_eq!(desk.status, "Cancelling download: dem.tif");
}

#[test]
fn a_broken_download_goes_on_from_what_is_there() {
    let mut desk = Downloads::new();
    desk.files.push(LocalFile { name: "dem.tif".to_string(), size: 40, is_partial: true });
    desk.origins.insert(
        "dem.tif".to_string(),
        Origin { identifier: "p/dem.tif".to_string(), total: Some(100) },
    );
    on_download_started(&mut desk, "1".to_string(), "p/dem.tif".to_string());
    let load = desk.loads.get("1").expect("закачка идёт");
    assert_eq!((load.done, load.total), (40, 100));
    assert_eq!(desk.status, "Starting download: dem.tif");
}

#[test]
fn a_new_size_is_noted_once() {
    let mut desk = started();
    on_download_progress(&mut desk, "1", 10, 100);
    assert_eq!(desk.acts.len(), 1);
    assert!(matches!(&desk.acts[0], Act::WriteNote { total: Some(100), .. }));
    on_download_progress(&mut desk, "1", 20, 100);
    assert_eq!(desk.acts.len(), 1);
    on_download_progress(&mut desk, "9", 20, 100);
    assert_eq!(desk.acts.len(), 1);
}

#[test]
fn an_ending_is_told_and_the_folder_is_listed() {
    for (ending, status) in [(Ending::Success, "Downloaded: dem.tif"), (Ending::Cancelled, "Paused: dem.tif")] {
        let mut desk = started();
        on_downloaded(&mut desk, "1", ending);
        assert_eq!(desk.status, status);
        assert!(matches!(desk.acts[..], [Act::List]));
        on_downloaded(&mut desk, "1", Ending::Success);
        assert_eq!(desk.acts.len(), 1);
    }
    let mut desk = started();
    on_downloaded(&mut desk, "1", Ending::Failed("HTTP 403".to_string()));
    assert_eq!(desk.error.as_deref(), Some("Download failed: HTTP 403"));
}

#[test]
fn a_file_that_downloads_is_deleted_when_that_has_ended() {
    let mut desk = started();
    on_delete_pressed(&mut desk, "downloads/dem.tif.part".to_string());
    assert!(matches!(&desk.acts[..], [Act::Cancel { .. }]));
    desk.acts.clear();
    on_downloaded(&mut desk, "1", Ending::Cancelled);
    assert_eq!(desk.status, "Deleted: dem.tif");
    assert!(!desk.origins.contains_key("dem.tif"));
    let correlation = match &desk.acts[..] {
        [Act::Delete { path: note, correlation: nobody }, Act::Delete { path, correlation }] => {
            assert_eq!((note.as_str(), nobody.as_str()), ("downloads/dem.tif.origin", ""));
            assert_eq!(path, "downloads/dem.tif.part");
            correlation.clone()
        }
        _ => panic!("файл не удалён"),
    };
    on_delete_result(&mut desk, &correlation, "занят");
    assert_eq!(desk.error.as_deref(), Some("Failed to delete downloads/dem.tif.part: занят"));
    assert!(matches!(desk.acts.last(), Some(Act::List)));
}

#[test]
fn a_file_that_lies_still_is_deleted_at_once() {
    let mut desk = Downloads::new();
    on_delete_pressed(&mut desk, "downloads/dem.tif".to_string());
    assert_eq!(desk.acts.len(), 2);
    on_delete_pressed(&mut desk, String::new());
    assert_eq!(desk.acts.len(), 2);
}

#[test]
fn a_note_of_another_is_not_believed() {
    let note = |provider: &str| {
        Some(Note {
            provider: provider.to_string(),
            origin: Origin { identifier: "p/dem.tif".to_string(), total: Some(7) },
        })
    };
    let mut desk = Downloads::new();
    desk.reads.insert("5".to_string(), "dem.tif".to_string());
    on_read_result(&mut desk, "4", note(PROVIDER));
    assert!(!desk.origins.contains_key("dem.tif"));
    on_read_result(&mut desk, "5", note("другой"));
    assert!(!desk.origins.contains_key("dem.tif"));
    desk.reads.insert("5".to_string(), "dem.tif".to_string());
    on_read_result(&mut desk, "5", note(PROVIDER));
    assert_eq!(desk.total_bytes("dem.tif"), 7);
    assert!(desk.reads.is_empty());
}

#[test]
fn a_file_to_look_at_is_remembered() {
    let mut desk = Downloads::new();
    on_view_pressed(&mut desk, String::new());
    assert!(desk.shown.is_none());
    on_view_pressed(&mut desk, "downloads/dem.tif".to_string());
    assert_eq!(desk.shown.as_deref(), Some("downloads/dem.tif"));
    assert_eq!(desk.error.as_deref(), Some("Image preview: модуль image ещё не реализован"));
}
