use grin_backup::backup::{
    archive_pattern, backup_folders, backup_outcome, latest_backup, newest, BackupError,
    BackupFolder, Engine,
};
use grin_backup::compression::CompressionFormat;
use grin_backup::timestamp::Timestamp;
use std::path::PathBuf;

fn at(year: i32, month: u32, day: u32, hour: u32, minute: u32, second: u32) -> Timestamp {
    Timestamp::new(year, month, day, hour, minute, second).unwrap()
}

#[test]
fn a_folder_keeps_its_path_and_its_prefix() {
    let folder = BackupFolder::new(PathBuf::from("/home/user/.grin/main"), PathBuf::from("/home/user"));
    assert_eq!(folder.path, PathBuf::from("/home/user/.grin/main"));
    assert_eq!(folder.prefix, PathBuf::from("/home/user"));
}

#[test]
fn a_folder_need_not_exist() {
    let folder = BackupFolder::new(PathBuf::from("/no/such/folder"), PathBuf::new());
    assert_eq!(folder.path, PathBuf::from("/no/such/folder"));
    assert_eq!(folder.prefix, PathBuf::new());
}

#[test]
fn backup_of_nothing_with_zip_is_planned_under_the_name_of_its_time() {
    let plan = backup_folders(vec![], PathBuf::from("/tmp/b"), CompressionFormat::Zip, 3, &at(2024, 1, 2, 3, 4, 5));
    assert!(plan.src_folders.is_empty());
    assert_eq!(plan.dest, PathBuf::from("/tmp/b"));
    assert_eq!(plan.file_name, "grin_gui_backup_2024-01-02_03-04-05.zip");
    assert_eq!(plan.engine, Engine::Zip);
    assert_eq!(plan.dest.join(&plan.file_name), PathBuf::from("/tmp/b/grin_gui_backup_2024-01-02_03-04-05.zip"));
}

#[test]
fn backup_with_zstd_hands_the_level_to_the_engine() {
    let folders = vec![
        BackupFolder::new(PathBuf::from("/a/one"), PathBuf::from("/a")),
        BackupFolder::new(PathBuf::from("/b/two"), PathBuf::from("/b")),
    ];
    let plan = backup_folders(folders, PathBuf::from("dest"), CompressionFormat::Zstd, 19, &at(1999, 12, 31, 23, 59, 59));
    assert_eq!(plan.src_folders.len(), 2);
    assert_eq!(plan.src_folders[0].path, PathBuf::from("/a/one"));
    assert_eq!(plan.src_folders[1].prefix, PathBuf::from("/b"));
    assert_eq!(plan.file_name, "grin_gui_backup_1999-12-31_23-59-59.tar.zst");
    assert_eq!(plan.engine, Engine::Zstd { level: 19 });
}

#[test]
fn a_failed_engine_is_what_the_backup_returns() {
    let plan = backup_folders(vec![], PathBuf::from("/tmp/b"), CompressionFormat::Zip, 0, &at(2024, 1, 2, 3, 4, 5));
    let returned = backup_outcome(&plan, Err("disk full"));
    assert_eq!(returned, Err(BackupError::Engine("disk full")));
}

#[test]
fn a_written_archive_returns_the_time_the_backup_was_started() {
    let plan = backup_folders(vec![], PathBuf::from("/tmp/b"), CompressionFormat::Zip, 0, &at(2024, 1, 2, 3, 4, 5));
    let returned: Result<Timestamp, BackupError<()>> = backup_outcome(&plan, Ok(()));
    assert_eq!(returned, Ok(at(2024, 1, 2, 3, 4, 5)));
}

#[test]
fn a_written_zstd_archive_returns_the_time_the_backup_was_started() {
    let folders = vec![BackupFolder::new(PathBuf::from("/w/data"), PathBuf::from("/w"))];
    let plan = backup_folders(folders, PathBuf::from("/tmp/b"), CompressionFormat::Zstd, 3, &at(2024, 1, 2, 3, 4, 5));
    assert_eq!(plan.engine, Engine::Zstd { level: 3 });
    assert_eq!(plan.dest.join(&plan.file_name), PathBuf::from("/tmp/b/grin_gui_backup_2024-01-02_03-04-05.tar.zst"));
    let returned: Result<Timestamp, BackupError<()>> = backup_outcome(&plan, Ok(()));
    assert_eq!(returned, Ok(at(2024, 1, 2, 3, 4, 5)));
}

#[test]
fn a_backup_returns_its_time_cut_to_the_second() {
    let now = Timestamp { nanosecond: 999_000_000, ..at(2024, 1, 2, 3, 4, 5) };
    for format in CompressionFormat::ALL {
        let plan = backup_folders(vec![], PathBuf::from("/tmp/b"), format, 0, &now);
        let returned: Result<Timestamp, BackupError<()>> = backup_outcome(&plan, Ok(()));
        assert_eq!(returned, Ok(at(2024, 1, 2, 3, 4, 5)));
    }
}

#[test]
fn a_backup_in_a_year_of_more_than_four_digits_has_a_name_that_is_not_read() {
    let plan = backup_folders(vec![], PathBuf::from("/tmp/b"), CompressionFormat::Zip, 0, &at(10000, 1, 1, 0, 0, 0));
    let returned: Result<Timestamp, BackupError<()>> = backup_outcome(&plan, Ok(()));
    assert_eq!(returned, Err(BackupError::UnreadableName));
}

#[test]
fn archive_pattern_of_each_format() {
    assert_eq!(
        archive_pattern("/tmp/b", CompressionFormat::Zip),
        "/tmp/b/grin_gui_backup_[0-9][0-9][0-9][0-9]-[0-9][0-9]-[0-9][0-9]_[0-9][0-9]-[0-9][0-9]-[0-9][0-9].zip"
    );
    assert_eq!(
        archive_pattern("backups", CompressionFormat::Zstd),
        "backups/grin_gui_backup_[0-9][0-9][0-9][0-9]-[0-9][0-9]-[0-9][0-9]_[0-9][0-9]-[0-9][0-9]-[0-9][0-9].tar.zst"
    );
}

#[test]
fn archive_pattern_takes_the_directory_literally() {
    let tail = "/grin_gui_backup_[0-9][0-9][0-9][0-9]-[0-9][0-9]-[0-9][0-9]_[0-9][0-9]-[0-9][0-9]-[0-9][0-9].zip";
    assert_eq!(archive_pattern("/tmp/[b", CompressionFormat::Zip), format!("/tmp/[[]b{}", tail));
    assert_eq!(archive_pattern("/tmp/b*", CompressionFormat::Zip), format!("/tmp/b[*]{}", tail));
    assert_eq!(archive_pattern("a?]", CompressionFormat::Zip), format!("a[?][]]{}", tail));
    assert_eq!(archive_pattern("", CompressionFormat::Zip), tail);
}

#[test]
fn archive_pattern_matches_in_its_directory_alone() {
    let pattern = glob::Pattern::new(&archive_pattern("/tmp/b*", CompressionFormat::Zip)).unwrap();
    assert!(pattern.matches("/tmp/b*/grin_gui_backup_2024-01-02_03-04-05.zip"));
    assert!(!pattern.matches("/tmp/bb/grin_gui_backup_2024-01-02_03-04-05.zip"));
    assert!(glob::Pattern::new(&archive_pattern("/tmp/[b", CompressionFormat::Zstd)).is_ok());
}

#[test]
fn newest_of_none_is_none() {
    assert_eq!(newest(&vec![]), None);
}

#[test]
fn newest_of_three_is_the_latest_wherever_it_stands() {
    let t1 = at(2023, 12, 31, 23, 59, 59);
    let t2 = at(2024, 1, 1, 0, 0, 0);
    let t3 = at(2024, 1, 1, 0, 0, 1);
    for times in [[t1, t2, t3], [t1, t3, t2], [t2, t1, t3], [t2, t3, t1], [t3, t1, t2], [t3, t2, t1]] {
        assert_eq!(newest(&times.to_vec()), Some(t3));
    }
}

#[test]
fn newest_of_equal_times_is_that_time() {
    let t = at(2024, 1, 2, 3, 4, 5);
    assert_eq!(newest(&vec![t, t]), Some(t));
    assert_eq!(newest(&vec![at(2020, 1, 1, 0, 0, 0), t, t]), Some(t));
}

#[test]
fn newest_puts_a_leap_second_after_second_59() {
    let before = at(2016, 12, 31, 23, 59, 59);
    let leap = Timestamp { nanosecond: 1_000_000_000, ..before };
    let after = at(2017, 1, 1, 0, 0, 0);
    assert_eq!(newest(&vec![leap, before]), Some(leap));
    assert_eq!(newest(&vec![leap, after, before]), Some(after));
}

#[test]
fn latest_backup_of_an_empty_directory_is_none() {
    assert_eq!(latest_backup(&vec![]), None);
}

#[test]
fn latest_backup_passes_over_names_of_another_shape() {
    let names = vec![
        String::from("notes.txt"),
        String::from("ajour_backup_2024-01-02_03-04-05.zip"),
        String::from("x_y_z_2024-01-02_03-04-05.zip"),
        String::from("grin_gui_backup_2024-01-02.zip"),
        String::from("grin_gui_backup_2024-01-02_03-04-05.zip.part"),
        String::from("grin_gui_backup_2024-1-2_3-4-5.zip"),
    ];
    assert_eq!(latest_backup(&names), None);
}

#[test]
fn latest_backup_passes_over_digits_that_are_no_date() {
    let names = vec![
        String::from("grin_gui_backup_2024-13-40_99-99-99.zip"),
        String::from("grin_gui_backup_0000-00-00_00-00-00.tar.zst"),
    ];
    assert_eq!(latest_backup(&names), None);
}

#[test]
fn latest_backup_leaves_out_what_is_no_date_and_finds_the_rest() {
    let names = vec![
        String::from("grin_gui_backup_2024-13-40_99-99-99.zip"),
        String::from("grin_gui_backup_2024-01-02_03-04-05.zip"),
    ];
    assert_eq!(latest_backup(&names), Some(at(2024, 1, 2, 3, 4, 5)));
}

#[test]
fn latest_backup_of_three_archives_is_the_newest_in_whichever_format() {
    let times = ["2023-12-31_23-59-59", "2024-01-01_00-00-00", "2024-01-02_03-04-05"];
    let orders = [[0, 1, 2], [0, 2, 1], [1, 0, 2], [1, 2, 0], [2, 0, 1], [2, 1, 0]];
    for order in orders {
        for formats in 0..8 {
            let mut names = vec![];
            for (place, which) in order.iter().enumerate() {
                let ext = if formats >> place & 1 == 0 { "zip" } else { "tar.zst" };
                names.push(format!("grin_gui_backup_{}.{}", times[*which], ext));
            }
            assert_eq!(latest_backup(&names), Some(at(2024, 1, 2, 3, 4, 5)), "{:?}", names);
        }
    }
}

#[test]
fn latest_backup_of_the_three_named_archives() {
    let names = vec![
        String::from("grin_gui_backup_2023-12-31_23-59-59.tar.zst"),
        String::from("grin_gui_backup_2024-01-01_00-00-00.zip"),
        String::from("grin_gui_backup_2024-01-02_03-04-05.tar.zst"),
    ];
    assert_eq!(latest_backup(&names), Some(at(2024, 1, 2, 3, 4, 5)));
}

#[test]
fn latest_backup_of_two_archives_of_one_time_is_that_time() {
    let names = vec![
        String::from("grin_gui_backup_2024-01-02_03-04-05.zip"),
        String::from("grin_gui_backup_2024-01-02_03-04-05.tar.zst"),
    ];
    assert_eq!(latest_backup(&names), Some(at(2024, 1, 2, 3, 4, 5)));
    let names = vec![names[1].clone(), names[0].clone()];
    assert_eq!(latest_backup(&names), Some(at(2024, 1, 2, 3, 4, 5)));
}

#[test]
fn latest_backup_finds_the_archive_a_backup_has_written() {
    let earlier = backup_folders(vec![], PathBuf::from("/tmp/b"), CompressionFormat::Zip, 0, &at(2024, 1, 2, 3, 4, 5));
    let later = backup_folders(vec![], PathBuf::from("/tmp/b"), CompressionFormat::Zstd, 3, &at(2024, 1, 2, 3, 4, 6));
    let names = vec![later.file_name.clone(), earlier.file_name.clone()];
    assert_eq!(latest_backup(&names), Some(at(2024, 1, 2, 3, 4, 6)));
    assert_eq!(latest_backup(&vec![earlier.file_name]), Some(at(2024, 1, 2, 3, 4, 5)));
}
