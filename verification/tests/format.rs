use data_browser::calendar;
use data_browser::components::format::{
    bytes, counted, date, distinct, ellipsize, head, mono_fit, parse_date, progress, share, shared, text_width,
    variable, variable_name,
};

#[test]
fn a_head_cut_keeps_the_start_of_the_phrase() {
    assert_eq!(head("не подробнее превью: подробный растр", 20), "не подробнее превью…");
    assert_eq!(head("не подробнее превью", 40), "не подробнее превью");
    assert_eq!(head("не подробнее", 3), "не подробнее");
    assert_eq!(head("аб вг", 4), "аб…", "пробел перед многоточием висит");
}

#[test]
fn a_variable_is_named_by_its_last_segment_then_its_words() {
    assert_eq!(variable_name("/PRODUCT/carbonmonoxide_total_column"), "carbonmonoxide_total_column");
    assert_eq!(variable_name("F1_BT_fn"), "F1_BT_fn");
    assert_eq!(
        variable("/PRODUCT/carbonmonoxide_total_column", "Vertically integrated CO column", "mol m-2"),
        "carbonmonoxide_total_column, mol m-2 — Vertically integrated CO column"
    );
    assert_eq!(variable("/F1_BT_fn", "", "K"), "F1_BT_fn, K");
    assert_eq!(variable("/x", "brightness", ""), "x — brightness");
    assert_eq!(variable("/x", "", ""), "x");
}

#[test]
fn a_line_is_shared_shortest_first() {
    assert_eq!(share(&[11, 89, 55], 84), vec![11, 37, 36]);
    assert_eq!(share(&[10, 20], 100), vec![10, 20]);
    assert_eq!(share(&[50, 50], 60), vec![30, 30]);
    assert_eq!(share(&[], 60), Vec::<usize>::new());
}

#[test]
fn a_date_is_read_in_both_usual_ways() {
    let day = parse_date("2026-08-13").expect("ISO");
    assert_eq!(parse_date("13.08.2026"), Some(day));
    assert_eq!(calendar::civil_from_unix(day), (2026, 8, 13));
}

#[test]
fn what_is_half_typed_is_no_date() {
    for text in ["", "2026-08-", "завтра", "2026-13-01", "2026-08-32", "1900-01-01"] {
        assert_eq!(parse_date(text), None, "{}", text);
    }
}

#[test]
fn a_count_is_declined_by_its_last_two_digits() {
    let files = |count| counted(&[(count, ["файл", "файла", "файлов"])]);
    assert_eq!(files(1), "1 файл");
    assert_eq!(files(2), "2 файла");
    assert_eq!(files(5), "5 файлов");
    assert_eq!(files(11), "11 файлов");
    assert_eq!(files(21), "21 файл");
    assert_eq!(files(111), "111 файлов");
}

#[test]
fn counts_of_none_are_not_told() {
    let parts = [
        (3usize, ["снимок", "снимка", "снимков"]),
        (0, ["папка", "папки", "папок"]),
        (2, ["файл", "файла", "файлов"]),
    ];
    assert_eq!(counted(&parts), "3 снимка, 2 файла");
    assert_eq!(counted(&[(0usize, ["слой", "слоя", "слоёв"])]), "");
    assert_eq!(counted(&[]), "");
}

#[test]
fn a_page_is_cut_by_what_tells_its_rows_apart() {
    let names = [
        "S3A_SL_2_AOD____20260818T201914_20260818T202213_0180_143_057______MAR_O_NR_003.SEN3",
        "S3A_SL_2_AOD____20260818T201614_20260818T201912_0179_143_057______MAR_O_NR_003.SEN3",
        "S3A_SL_2_AOD____20260818T201314_20260818T201612_0179_143_057______MAR_O_NR_003.SEN3",
    ];
    let shared = shared(&names, 21);
    assert!(shared.0 > 0 && shared.1 > 0, "края не совпали: {:?}", shared);
    let shown: Vec<String> = names.iter().map(|name| distinct(name, 21, shared)).collect();
    assert_eq!(shown.len(), 3);
    assert_ne!(shown[0], shown[1], "строки неразличимы: {}", shown[0]);
    assert_ne!(shown[1], shown[2], "строки неразличимы: {}", shown[1]);
    for one in &shown {
        assert!(one.chars().count() <= 21, "{} знаков: {}", one.chars().count(), one);
        assert!(one.starts_with('…') && one.ends_with('…'), "срез не помечен: {}", one);
    }

    let blind: Vec<String> = names.iter().map(|name| ellipsize(name, 21)).collect();
    assert_eq!(blind[0], blind[1]);
}

#[test]
fn a_name_that_fits_is_not_cut() {
    let names = ["одна_и_та_же_шапка_A", "одна_и_та_же_шапка_B"];
    assert_eq!(shared(&names, 40), (0, 0));
    assert_eq!(distinct(names[0], 40, (0, 0)), names[0]);
}

#[test]
fn what_is_the_same_has_nothing_to_cut() {
    let same = ["S1C_IW_GRDH_1SDV_20260818T000000.SAFE"; 3];
    assert_eq!(shared(&same, 21), (0, 0));
    assert_eq!(shared(&[same[0]], 21), (0, 0));
    assert_eq!(shared(&[], 21), (0, 0));
    let mixed = ["AxB", "AyB", "AzzzzzzzzzzzzzzzzzzzzzzzzzzzzzzzB"];
    let (head, tail) = shared(&mixed, 8);
    assert!(head + tail < 3, "съедено всё короткое имя: {:?}", (head, tail));
}

#[test]
fn what_differs_from_the_start_is_cut_in_the_middle() {
    let names = [
        "S1C_IW_GRDH_1SDV_20260818T000000_009054_011F94_A43C.SAFE",
        "LC08_L1TP_170025_20260818_20260818_02_T1",
    ];
    assert_eq!(shared(&names, 21), (0, 0));

    let missions = [
        "S3B_SR_1_SRA_A__20260818T110337_20260818T111337_0600_123_293.SEN3",
        "S2B_MSIL1C_20260818T093549_N0511_R036_T35UNV_20260818T113217.SAFE",
    ];
    assert_eq!(shared(&missions, 21), (0, 0));
}

#[test]
fn room_left_goes_back_to_the_start_of_the_name() {
    let names = [
        "S2A_MSIL2A_20260818T012111_N0512_R031_T54RWV_20260818T042717.SAFE",
        "S2A_MSIL2A_20260818T012111_N0512_R031_T54RXV_20260818T042717.SAFE",
        "S2A_MSIL2A_20260818T012111_N0512_R031_T54SUA_20260818T042717.SAFE",
    ];
    let shared = shared(&names, 21);
    let shown: Vec<String> = names.iter().map(|name| distinct(name, 21, shared)).collect();
    for (name, one) in names.iter().zip(&shown) {
        assert!(one.chars().count() <= 21, "{} знаков: {}", one.chars().count(), one);
        assert!(one.starts_with("S2A_MSIL2A"), "имя неопознаваемо: {}", one);
        let tile = &name[41..44];
        assert!(one.contains(tile), "нет различающего куска {}: {}", tile, one);
    }
    assert_ne!(shown[0], shown[1]);
    assert_ne!(shown[1], shown[2]);
}

#[test]
fn a_size_is_written_one_way() {
    assert_eq!(bytes(0), "0 Б", "у байтов дробной части нет вовсе");
    assert_eq!(bytes(512), "512 Б");
    assert_eq!(bytes(1536), "1,5 КБ", "десятичная запятая, как в остальном интерфейсе");
    assert_eq!(bytes(12 * 1024), "12 КБ", "у большого числа дробь — шум");
    assert_eq!(bytes(1024 * 1024 * 1024), "1,0 ГБ");
}

#[test]
fn progress_is_written_in_one_unit() {
    let said = progress(50 * 1024 * 1024 + 943718, 58 * 1024 * 1024 + 734003);
    assert_eq!(said, "51/59 МБ", "у чисел крупнее десяти дробь — мелькающий шум");
    assert_eq!(said.matches("МБ").count(), 1, "единица названа дважды");

    assert_eq!(progress(4508876800, 9663676416), "4,2/9,0 ГБ");

    assert_eq!(progress(1024, 4 * 1024 * 1024 * 1024), "0,0/4,0 ГБ");

    assert_eq!(progress(0, 0), "0/0 Б");
}

fn scaled(value: f64, unit: usize) -> String {
    let units = ["Б", "КБ", "МБ", "ГБ", "ТБ"];
    if unit == 0 || value >= 10.0 {
        format!("{:.0} {}", value, units[unit])
    } else {
        format!("{:.1} {}", value, units[unit]).replace('.', ",")
    }
}

#[test]
fn sizes_are_rounded_as_numbers_with_a_fraction_are() {
    let sizes: [u64; 12] = [
        1,
        1023,
        1024,
        1075,
        1126,
        1331,
        10_239,
        10_240,
        1_048_575,
        9_007_199_254_740_993,
        18_446_744_073_709_551_615,
        9_960_000,
    ];
    for size in sizes {
        let mut value = size as f64;
        let mut unit = 0;
        while value >= 1024.0 && unit < 4 {
            value /= 1024.0;
            unit += 1;
        }
        assert_eq!(bytes(size), scaled(value, unit), "{}", size);
    }
}

#[test]
fn a_day_is_told_by_how_far_it_is() {
    let now = parse_date("2026-08-13").expect("день") + 12 * 3600;
    let today = parse_date("2026-08-13").expect("день") + 9 * 3600 + 5 * 60;
    assert_eq!(date(today, now), "сегодня, 09:05");
    assert_eq!(date(today - 86_400, now), "вчера, 09:05");
    assert_eq!(date(0, now), "");
}

#[test]
fn room_is_counted_in_whole_characters() {
    assert_eq!(mono_fit(150, 125), 20);
    assert_eq!(mono_fit(0, 125), 0);
    assert_eq!(text_width("Фильтр", 120), 720);
}

#[test]
fn a_told_apart_name_fits_from_four_characters_on() {
    assert_eq!(distinct("abcdefghij", 4, (0, 2)), "a…ij");
    assert_eq!(distinct("abcdefghij", 5, (2, 2)), "ab…ij");
    assert_eq!(distinct("abcdefghij", 6, (2, 2)), "…c…gh…");
    for limit in 4..14 {
        for head in 0..11 {
            for tail in 0..11 {
                let shown = distinct("abcdefghij", limit, (head, tail));
                assert!(shown.chars().count() <= limit, "{} {} {}: {}", limit, head, tail, shown);
            }
        }
    }
    assert_eq!(distinct("abcdefghij", 3, (2, 2)), "abcdefghij");
}

#[test]
fn no_room_of_a_line_is_wasted() {
    for room in 0..40usize {
        let lengths = [3usize, 9, 9, 1, 14];
        let shares = share(&lengths, room);
        assert_eq!(shares.iter().sum::<usize>(), room.min(36));
        for a in 0..5 {
            for b in 0..5 {
                if shares[a] == lengths[a] && shares[b] < lengths[b] {
                    assert!(lengths[a] <= shares[b] + 1);
                }
            }
        }
    }
}
