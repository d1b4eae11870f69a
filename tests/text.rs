use swd::files::WFile;
use swd::review::Instruction;
use swd::text::{
    command_line, csv_record, export_name, export_record, found_line, summary_line, SaveFormat,
};

fn mod_file() -> WFile {
    WFile {
        file_id: 2529002857,
        app_id: 294100,
        children: None,
        title: "Some Mod".to_string(),
        description: String::new(),
        time_created: 0,
        time_updated: 1_600_000_000,
    }
}

#[test]
fn command_line_of_instructions() {
    let line = command_line(&vec![
        Instruction::Login { username: "anonymous".to_string() },
        Instruction::DownloadItem { app_id: 294100, file_id: 1626860092 },
        Instruction::DownloadItem { app_id: 294100, file_id: 7 },
        Instruction::Quit,
    ]);
    assert_eq!(
        line,
        "steamcmd +login anonymous +workshop_download_item 294100 1626860092 \
         +workshop_download_item 294100 7 +quit "
    );
}

#[test]
fn command_line_drops_line_breaks_of_username() {
    let line = command_line(&vec![
        Instruction::Login { username: "a\nb\n".to_string() },
        Instruction::Quit,
    ]);
    assert_eq!(line, "steamcmd +login ab +quit ");
}

#[test]
fn command_line_of_largest_id() {
    let line = command_line(&vec![Instruction::DownloadItem { app_id: 0, file_id: u64::MAX }]);
    assert_eq!(line, "steamcmd +workshop_download_item 0 18446744073709551615 ");
}

#[test]
fn export_name_from_id_and_title() {
    assert_eq!(export_name(&mod_file()), "2529002857_Some Mod.csv");
}

#[test]
fn simple_export_record_is_the_id() {
    assert_eq!(export_record(SaveFormat::Simple, &mod_file()), Some("2529002857".to_string()));
}

#[test]
fn csv_export_record_has_times() {
    assert_eq!(
        export_record(SaveFormat::Csv, &mod_file()),
        Some("2529002857\tSome Mod\t1970-01-01 00:00:00 UTC\t2020-09-13 12:26:40 UTC".to_string())
    );
}

#[test]
fn csv_export_record_out_of_range_time() {
    let mut f = mod_file();
    f.time_updated = i64::MAX;
    assert_eq!(export_record(SaveFormat::Csv, &f), None);
}

#[test]
fn csv_record_joins_fields() {
    assert_eq!(csv_record(&mod_file(), "x", "y"), "2529002857\tSome Mod\tx\ty");
}

#[test]
fn found_line_of_mod() {
    assert_eq!(
        found_line(&mod_file()),
        Some(
            "Found mod \t\t 2529002857: \t Some Mod \t\t Created at: \t 1970-01-01 00:00:00 UTC \
             \t\t Updated at: \t 2020-09-13 12:26:40 UTC "
                .to_string()
        )
    );
}

#[test]
fn summary_line_of_collection() {
    let mut f = mod_file();
    f.children = Some(vec![1, 2]);
    assert_eq!(
        summary_line(&f, "then", "now"),
        "Found collection \t\t 2529002857: \t Some Mod \t\t Created at: \t then \t\t Updated at: \t now "
    );
}

#[test]
fn times_at_the_range_limits_have_text() {
    let mut f = mod_file();
    f.time_created = -8_000_000_000_000;
    f.time_updated = 8_000_000_000_000;
    assert!(found_line(&f).is_some());
    let record = export_record(SaveFormat::Csv, &f).unwrap();
    assert!(record.starts_with("2529002857\tSome Mod\t"));
    assert!(record.ends_with(" UTC"));
}
