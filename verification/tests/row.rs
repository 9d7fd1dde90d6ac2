use data_browser::components::row::{
    downloaded_rows, folder_of, folder_path, last_segment, preview_of, Row, RowKind, RowStatus,
};
use data_browser::message::ViewMsg;
use data_browser::proto::{LibraryEntry, LibraryStatus};
use data_browser::state::library::LibraryState;

fn entry(name: &str, product: &str, status: LibraryStatus, done: u64) -> LibraryEntry {
    LibraryEntry {
        name: name.to_string(),
        identifier: format!("eodata/{}/{}", product, name),
        product: product.to_string(),
        done,
        total: done,
        status,
        modified: 0,
        siblings: 0,
        trouble: String::new(),
    }
}

fn walked(files: u32, mut entries: Vec<LibraryEntry>) -> Vec<LibraryEntry> {
    for entry in &mut entries {
        entry.siblings = files;
    }
    entries
}

#[test]
fn a_lone_file_is_chosen_just_like_a_snapshot() {
    let mut entries = walked(1, vec![entry("B1.TIF", "S2B_X.SAFE", LibraryStatus::LibComplete, 10)]);
    let mut lone = entry("dem.tif", "", LibraryStatus::LibComplete, 7);
    lone.identifier = "eodata/dem/dem.tif".to_string();
    entries.push(lone);
    let rows = downloaded_rows(&LibraryState { entries });

    let (snapshot, lone) = (&rows[0], &rows[1]);
    assert!(snapshot.choosable(), "снимок выбирается");
    assert!(lone.choosable(), "файл вне снимка тоже выбирается");
    assert!(!lone.is_snapshot(), "снимком он при этом не притворяется");
    assert_eq!(lone.choice_key(), "eodata/dem/dem.tif", "файл адресуется своим ключом");
}

#[test]
fn a_snapshot_is_chosen_by_the_key_it_is_outlined_by() {
    let listed = Row::container_row(
        "eodata/store/S2B_X.SAFE/".to_string(),
        "S2B_X.SAFE".to_string(),
        RowStatus::Remote,
        RowKind::Product { folder: true },
    );
    assert_eq!(listed.choice_key(), listed.snapshot_key());
    assert_ne!(listed.choice_key(), listed.key(), "слэш листинга в ключ выбора не идёт");

    let parted = Row {
        group: Some("сцена".to_string()),
        ..Row::container_row(
            "eodata/store/S2B_X.SAFE".to_string(),
            "S2B_X.SAFE".to_string(),
            RowStatus::Remote,
            RowKind::Product { folder: false },
        )
    };
    assert_eq!(parted.choice_key(), parted.snapshot_key());
    assert_ne!(parted.choice_key(), parted.key(), "ключ сцены в ключ выбора не идёт");
}

#[test]
fn a_path_folder_is_not_chosen_but_a_snapshot_folder_is() {
    let folder = Row::container_row(
        "eodata/store/".to_string(),
        "store".to_string(),
        RowStatus::Remote,
        RowKind::Folder,
    );
    let snapshot = Row::container_row(
        "eodata/store/S2B_X.SAFE".to_string(),
        "S2B_X.SAFE".to_string(),
        RowStatus::Remote,
        RowKind::Product { folder: true },
    );

    assert!(!folder.choosable());
    assert!(snapshot.choosable());
    assert!(!Row::default().choosable(), "адресовать безымянную строку нечем");
}

#[test]
fn files_of_one_snapshot_fold_into_one_row() {
    let mut entries = walked(
        2,
        vec![
            entry("B1.TIF", "S2B_X.SAFE", LibraryStatus::LibComplete, 10),
            entry("B2.TIF", "S2B_X.SAFE", LibraryStatus::LibComplete, 20),
        ],
    );
    entries.push(entry("dem.tif", "", LibraryStatus::LibComplete, 7));
    let rows = downloaded_rows(&LibraryState { entries });

    assert_eq!(rows.len(), 2, "снимок и одиночный файл");
    let snapshot = &rows[0];
    assert_eq!(snapshot.title, "S2B_X.SAFE");
    assert!(snapshot.kind.is_product());
    assert_eq!(snapshot.children.len(), 2);
    assert_eq!(snapshot.size, 30);
    assert!(matches!(snapshot.status, RowStatus::Complete));

    assert_eq!(rows[1].title, "dem.tif");
    assert!(!rows[1].kind.is_product());
    assert!(rows[1].children.is_empty());
}

#[test]
fn snapshot_is_downloading_while_any_file_is() {
    let rows = downloaded_rows(&LibraryState {
        entries: vec![
            entry("B1.TIF", "S2B_X.SAFE", LibraryStatus::LibComplete, 10),
            entry("B2.TIF", "S2B_X.SAFE", LibraryStatus::LibDownloading, 5),
        ],
    });
    assert!(matches!(rows[0].status, RowStatus::Downloading { .. }));

    let rows = downloaded_rows(&LibraryState {
        entries: vec![
            entry("B1.TIF", "S2B_X.SAFE", LibraryStatus::LibComplete, 10),
            entry("B2.TIF", "S2B_X.SAFE", LibraryStatus::LibPaused, 5),
        ],
    });
    assert!(matches!(rows[0].status, RowStatus::Partial { done: 1, .. }));
}

#[test]
fn snapshot_is_whole_only_when_its_size_is_known() {
    let files = || {
        vec![
            entry("B1.TIF", "S2B_X.SAFE", LibraryStatus::LibComplete, 10),
            entry("B2.TIF", "S2B_X.SAFE", LibraryStatus::LibComplete, 20),
        ]
    };
    let rows = downloaded_rows(&LibraryState { entries: files() });
    assert!(matches!(rows[0].status, RowStatus::Partial { done: 2, .. }));
    let rows = downloaded_rows(&LibraryState { entries: walked(3, files()) });
    assert!(matches!(rows[0].status, RowStatus::Partial { done: 2, .. }));
    let rows = downloaded_rows(&LibraryState { entries: walked(2, files()) });
    assert!(matches!(rows[0].status, RowStatus::Complete));
}

#[test]
fn snapshot_of_interrupted_files_says_it_is_interrupted() {
    let rows = downloaded_rows(&LibraryState {
        entries: vec![
            entry("B1.TIF", "S2B_X.SAFE", LibraryStatus::LibPaused, 3),
            entry("B2.TIF", "S2B_X.SAFE", LibraryStatus::LibPaused, 4),
        ],
    });
    assert!(matches!(rows[0].status, RowStatus::Paused { .. }));
    assert_eq!(rows[0].stored(), 7);
}

#[test]
fn a_snapshot_speaks_the_trouble_only_when_its_files_agree() {
    let troubled = |name: &str, said: &str| LibraryEntry {
        trouble: said.to_string(),
        ..entry(name, "S2B_X.SAFE", LibraryStatus::LibPaused, 3)
    };

    let rows = downloaded_rows(&LibraryState {
        entries: vec![troubled("B1.TIF", "HTTP 403"), troubled("B2.TIF", "HTTP 403")],
    });
    match &rows[0].status {
        RowStatus::Paused { trouble, .. } => assert_eq!(trouble, "HTTP 403"),
        _ => panic!("ожидалась оборванная строка"),
    }

    let rows = downloaded_rows(&LibraryState {
        entries: vec![troubled("B1.TIF", "HTTP 403"), troubled("B2.TIF", "нет места")],
    });
    match &rows[0].status {
        RowStatus::Paused { trouble, .. } => assert!(trouble.is_empty(), "причины разные"),
        _ => panic!("ожидалась оборванная строка"),
    }
}

#[test]
fn single_file_snapshot_is_not_wrapped() {
    let mut only = entry("S1A_X.zip", "eodata/S1A_X.zip", LibraryStatus::LibComplete, 9);
    only.identifier = "eodata/S1A_X.zip".to_string();
    let rows = downloaded_rows(&LibraryState { entries: vec![only] });
    assert_eq!(rows.len(), 1);
    assert!(rows[0].children.is_empty(), "обёртки нет");
    assert_eq!(rows[0].name, "S1A_X.zip", "запись библиотеки осталась записью");
    assert!(rows[0].is_snapshot(), "снимком его делает совпадение ключей");
    assert!(!rows[0].expandable(), "раскрывать в нём нечего");
}

#[test]
fn a_folded_snapshot_expands_but_is_not_a_record() {
    let rows = downloaded_rows(&LibraryState {
        entries: vec![
            entry("B1.TIF", "S2B_X.SAFE", LibraryStatus::LibComplete, 10),
            entry("B2.TIF", "S2B_X.SAFE", LibraryStatus::LibComplete, 20),
        ],
    });
    assert!(rows[0].folded);
    assert!(rows[0].expandable());
    assert!(rows[0].name.is_empty(), "своего имени в библиотеке у неё нет");
    assert!(!rows[0].children[0].folded);
    assert!(!rows[0].children[0].expandable());
}

#[test]
fn a_row_answers_to_its_key_with_or_without_the_folder_slash() {
    let row = Row::container_row(
        "eodata/S2B_X.SAFE/".to_string(),
        "S2B_X.SAFE".to_string(),
        RowStatus::Remote,
        RowKind::Product { folder: true },
    );
    assert!(row.named("eodata/S2B_X.SAFE"));
    assert!(row.named("eodata/S2B_X.SAFE/"));
    assert!(!row.named("eodata/S2B_Y.SAFE"));
    assert!(!row.named(""), "пустой ключ не называет никого");
}

#[test]
fn the_last_segment_ignores_the_folder_slash() {
    assert_eq!(last_segment("eodata/S2B_X.SAFE/"), "S2B_X.SAFE");
    assert_eq!(last_segment("eodata/S2B_X.SAFE"), "S2B_X.SAFE");
    assert_eq!(last_segment("S2B_X.SAFE/GRANULE/B01.jp2"), "B01.jp2");
    assert_eq!(last_segment("dem.tif"), "dem.tif");
    assert_eq!(last_segment(""), "");
    assert_eq!(last_segment("/"), "");
}

#[test]
fn a_file_speaks_for_the_snapshot_it_belongs_to() {
    let snapshot = "eodata/store/S2B_X.SAFE";
    let mut file = Row {
        identifier: format!("{}/GRANULE/B01.jp2", snapshot),
        product: snapshot.to_string(),
        ..Default::default()
    };
    assert!(!file.is_snapshot(), "файл снимком не притворяется");
    assert_eq!(file.product_key(), snapshot);
    assert_ne!(file.product_key(), file.snapshot_key(), "файл позвал бы сам себя");

    let listed = Row {
        product: snapshot.to_string(),
        ..Row::container_row(
            format!("{}/", snapshot),
            "S2B_X.SAFE".to_string(),
            RowStatus::Remote,
            RowKind::Product { folder: true },
        )
    };
    assert!(listed.is_snapshot());
    assert_eq!(listed.product_key(), snapshot);
    assert_eq!(listed.product_key(), listed.snapshot_key());

    file.product = String::new();
    assert_eq!(file.product_key(), file.snapshot_key());
}

#[test]
fn preview_prefers_the_downloaded_file() {
    let key = "eodata/S1A_X.SAFE/quick-look.png";

    let done = LibraryState {
        entries: vec![entry("quick-look.png", "S1A_X.SAFE", LibraryStatus::LibComplete, 4)],
    };
    assert!(matches!(preview_of(&done, key, false), ViewMsg::Preview(name) if name == "quick-look.png"));

    let started = LibraryState {
        entries: vec![entry("quick-look.png", "S1A_X.SAFE", LibraryStatus::LibPaused, 4)],
    };
    assert!(matches!(preview_of(&started, key, false), ViewMsg::PreviewRemote(_)));

    assert!(matches!(preview_of(&started, "eodata/S1A_X.SAFE", true), ViewMsg::PreviewProduct(_)));
}

#[test]
fn a_key_is_taken_apart_the_same_with_its_slash() {
    for key in ["eodata/store/A.SAFE", "eodata/store/A.SAFE/", "eodata/store/A.SAFE//"] {
        assert_eq!(folder_of(key), "eodata/store");
        assert_eq!(folder_path(key), "eodata/store/A.SAFE/");
    }
    assert_eq!(folder_of("A.SAFE"), "");
}

#[test]
fn every_record_of_the_library_is_in_the_list_once() {
    let mut only = entry("S1A_X.zip", "eodata/S1A_X.zip", LibraryStatus::LibComplete, 9);
    only.identifier = "eodata/S1A_X.zip".to_string();
    let entries = vec![
        entry("B1.TIF", "S2B_X.SAFE", LibraryStatus::LibComplete, 10),
        entry("dem.tif", "", LibraryStatus::LibComplete, 7),
        only,
        entry("B2.TIF", "S2B_X.SAFE", LibraryStatus::LibPaused, 20),
    ];
    let mut names: Vec<String> = Vec::new();
    for row in downloaded_rows(&LibraryState { entries }) {
        if row.folded {
            names.extend(row.children.iter().map(|file| file.name.clone()));
        } else {
            names.push(row.name.clone());
        }
    }
    names.sort();
    assert_eq!(names, ["B1.TIF", "B2.TIF", "S1A_X.zip", "dem.tif"]);
}

#[test]
fn a_format_is_the_extension_in_capitals() {
    let file = Row { title: "dem.tif".to_string(), ..Default::default() };
    assert_eq!(file.format(), "TIF");
}
