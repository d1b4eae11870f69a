use swd::files::WFiles;
use swd::net::get_collection_details::{self, Child};
use swd::net::get_published_file_details::{Detail, DetailInner};
use swd::review::ReviewOptions::{No, Skip, Yes};
use swd::review::{Action, Download, InvalidInput, Instruction, Next, Review, ReviewOptions};

fn valid(file_id: u64) -> Detail {
    Detail {
        file_id,
        result: 1,
        inner: Some(DetailInner {
            app_id: 294100 + file_id,
            title: format!("item {}", file_id),
            description: String::new(),
            time_created: 0,
            time_updated: 0,
        }),
    }
}

/// Seeds [C, B]; C holds, by sort order, mod A (1), nested collection D (4)
/// and mod B (3).
fn scenario() -> WFiles {
    let cols = get_collection_details::deserialize(vec![get_collection_details::Detail {
        file_id: 100,
        result: 1,
        children: Some(vec![
            Child { file_id: 3, sortorder: 30, filetype: 0 },
            Child { file_id: 1, sortorder: 10, filetype: 0 },
            Child { file_id: 4, sortorder: 20, filetype: 2 },
        ]),
    }]);
    let details = vec![valid(100), valid(1), valid(3)];
    WFiles::new(vec![100, 3], &cols, &details).0
}

/// Two collections sharing mod 3, then mod 9 alone.
fn two_collections() -> WFiles {
    let cols = get_collection_details::deserialize(vec![
        get_collection_details::Detail {
            file_id: 100,
            result: 1,
            children: Some(vec![
                Child { file_id: 1, sortorder: 0, filetype: 0 },
                Child { file_id: 2, sortorder: 1, filetype: 0 },
                Child { file_id: 3, sortorder: 2, filetype: 0 },
            ]),
        },
        get_collection_details::Detail {
            file_id: 200,
            result: 1,
            children: Some(vec![
                Child { file_id: 3, sortorder: 0, filetype: 0 },
                Child { file_id: 5, sortorder: 1, filetype: 0 },
            ]),
        },
    ]);
    let details: Vec<Detail> = [100, 200, 1, 2, 3, 5, 9].iter().map(|&i| valid(i)).collect();
    WFiles::new(vec![100, 200, 9], &cols, &details).0
}

fn ids(r: &Review) -> Vec<u64> {
    r.downloads().iter().map(|d| d.file_id).collect()
}

/// Runs the review with the given answers, one per prompt.
fn run_scripted(r: &mut Review, answers: &[ReviewOptions]) -> Vec<Action> {
    let mut answers = answers.iter();
    let mut actions = Vec::new();
    loop {
        let d = match r.next() {
            Next::Done => break,
            Next::Prompt(_) => *answers.next().expect("a scripted answer"),
            Next::Advance => ReviewOptions::Yes,
        };
        actions.extend(r.step(d));
    }
    assert!(answers.next().is_none());
    actions
}

#[test]
fn unattended_scenario_downloads_each_mod_once() {
    let mut r = Review::new(scenario(), false);
    let actions = r.run_unattended();
    assert_eq!(
        actions,
        vec![
            Action::Download { app_id: 294101, file_id: 1 },
            Action::Download { app_id: 294103, file_id: 3 },
        ]
    );
    assert_eq!(r.next(), Next::Done);
    assert_eq!(
        r.build_cmd("anonymous".to_string()),
        vec![
            Instruction::Login { username: "anonymous".to_string() },
            Instruction::DownloadItem { app_id: 294101, file_id: 1 },
            Instruction::DownloadItem { app_id: 294103, file_id: 3 },
            Instruction::Quit,
        ]
    );
}

#[test]
fn unattended_export_records_every_mod() {
    let mut r = Review::new(scenario(), true);
    let actions = r.run_unattended();
    assert_eq!(
        actions,
        vec![
            Action::OpenExport { collection: 100 },
            Action::Download { app_id: 294101, file_id: 1 },
            Action::ExportLine { file_id: 1 },
            Action::Download { app_id: 294103, file_id: 3 },
            Action::ExportLine { file_id: 3 },
            Action::CloseExport,
        ]
    );
}

#[test]
fn shared_mod_downloaded_once() {
    let mut r = Review::new(two_collections(), false);
    r.run_unattended();
    assert_eq!(ids(&r), vec![1, 2, 3, 5, 9]);
}

#[test]
fn skip_ends_only_the_current_collection() {
    let mut r = Review::new(two_collections(), true);
    // collection 100: yes; mod 1: yes; mod 2: skip; collection 200: yes;
    // mod 3: yes; mod 5: yes; mod 9: yes
    let actions = run_scripted(&mut r, &[Yes, Yes, Skip, Yes, Yes, Yes, Yes]);
    assert_eq!(ids(&r), vec![1, 3, 5, 9]);
    assert_eq!(
        actions,
        vec![
            Action::OpenExport { collection: 100 },
            Action::Download { app_id: 294101, file_id: 1 },
            Action::ExportLine { file_id: 1 },
            Action::CloseExport,
            Action::OpenExport { collection: 200 },
            Action::Download { app_id: 294103, file_id: 3 },
            Action::ExportLine { file_id: 3 },
            Action::Download { app_id: 294105, file_id: 5 },
            Action::ExportLine { file_id: 5 },
            Action::CloseExport,
            Action::Download { app_id: 294109, file_id: 9 },
        ]
    );
}

#[test]
fn rejecting_one_mod_keeps_the_rest() {
    let mut r = Review::new(two_collections(), false);
    run_scripted(&mut r, &[Yes, Yes, No, Yes, No, Yes]);
    assert_eq!(ids(&r), vec![1, 3, 9]);
}

#[test]
fn rejected_collection_walks_none_of_its_mods() {
    let mut r = Review::new(two_collections(), true);
    let actions = run_scripted(&mut r, &[No, Yes, Yes, Yes, No]);
    assert_eq!(ids(&r), vec![3, 5]);
    assert_eq!(actions[0], Action::OpenExport { collection: 200 });
}

#[test]
fn skip_at_seed_level_is_a_rejection() {
    let mut r = Review::new(two_collections(), false);
    run_scripted(&mut r, &[Skip, Skip, Yes]);
    assert_eq!(ids(&r), vec![9]);
    assert_eq!(
        r.downloads(),
        &vec![Download { app_id: 294109, file_id: 9 }]
    );
}

#[test]
fn empty_review_is_done_at_once() {
    let cols = get_collection_details::deserialize(vec![]);
    let (w, _) = WFiles::new(vec![], &cols, &vec![]);
    let mut r = Review::new(w, false);
    assert_eq!(r.next(), Next::Done);
    assert!(r.run_unattended().is_empty());
    assert_eq!(
        r.build_cmd("me".to_string()),
        vec![Instruction::Login { username: "me".to_string() }, Instruction::Quit]
    );
}

#[test]
fn invalid_mod_inside_collection_is_passed_over() {
    let cols = get_collection_details::deserialize(vec![get_collection_details::Detail {
        file_id: 100,
        result: 1,
        children: Some(vec![
            Child { file_id: 1, sortorder: 0, filetype: 0 },
            Child { file_id: 2, sortorder: 1, filetype: 0 },
        ]),
    }]);
    let details = vec![valid(100), Detail { file_id: 1, result: 2, inner: None }, valid(2)];
    let (w, invalid) = WFiles::new(vec![100], &cols, &details);
    assert_eq!(invalid, vec![1]);
    let mut r = Review::new(w, false);
    assert_eq!(r.next(), Next::Prompt(100));
    r.step(ReviewOptions::Yes);
    assert_eq!(r.next(), Next::Advance);
    r.step(ReviewOptions::No);
    assert_eq!(r.next(), Next::Prompt(2));
    r.step(ReviewOptions::Yes);
    assert_eq!(r.next(), Next::Advance);
    r.step(ReviewOptions::Yes);
    assert_eq!(r.next(), Next::Done);
    assert_eq!(ids(&r), vec![2]);
}

#[test]
fn answers_parse() {
    assert_eq!(ReviewOptions::from_str("y"), Ok(ReviewOptions::Yes));
    assert_eq!(ReviewOptions::from_str("yes"), Ok(ReviewOptions::Yes));
    assert_eq!(ReviewOptions::from_str("n"), Ok(ReviewOptions::No));
    assert_eq!(ReviewOptions::from_str("no"), Ok(ReviewOptions::No));
    assert_eq!(ReviewOptions::from_str("skip"), Ok(ReviewOptions::Skip));
    assert_eq!(ReviewOptions::from_str("s"), Err(InvalidInput));
    assert_eq!(ReviewOptions::from_str("Yes"), Err(InvalidInput));
    assert_eq!(ReviewOptions::from_str(""), Err(InvalidInput));
}

#[test]
fn answers_print() {
    assert_eq!(ReviewOptions::Yes.to_string(), "yes");
    assert_eq!(ReviewOptions::No.to_string(), "no");
    assert_eq!(ReviewOptions::Skip.to_string(), "skip");
}

fn collection_then_mod(children: &[u64]) -> WFiles {
    let cols = get_collection_details::deserialize(vec![get_collection_details::Detail {
        file_id: 100,
        result: 1,
        children: Some(
            children
                .iter()
                .enumerate()
                .map(|(i, &id)| Child { file_id: id, sortorder: i as u32, filetype: 0 })
                .collect(),
        ),
    }]);
    let details: Vec<Detail> = [100, 1, 2, 3, 9].iter().map(|&i| valid(i)).collect();
    WFiles::new(vec![100, 9], &cols, &details).0
}

#[test]
fn skip_matches_a_cut_collection() {
    let mut full = Review::new(collection_then_mod(&[1, 2, 3]), true);
    let skipped = run_scripted(&mut full, &[Yes, Yes, Skip, Yes]);
    let mut cut = Review::new(collection_then_mod(&[1]), true);
    let walked = run_scripted(&mut cut, &[Yes, Yes, Yes]);
    assert_eq!(skipped, walked);
    assert_eq!(
        full.build_cmd("u".to_string()),
        cut.build_cmd("u".to_string())
    );
}
