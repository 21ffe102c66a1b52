use cabal_runtime::completion::{
    check_candidate, check_contract_location, digest_inputs, evaluate, judge_reads,
    load_contract, locate_contract, matching_criteria, receipt_filename, record_cargo_outcome,
    validate_relative_path, CargoCommand, CargoOutcome,
    CommandReceiptCriterion, ContractLoad, CriterionStatus, EntryKind, Evidence, FileCriterion,
    GateError, GateStatus, HashCriterion, InputCollection, InputFile, Receipt, WireContract,
    WireCriterion, MAX_CONTRACT_BYTES, MAX_CRITERIA, MAX_CRITERION_ID_BYTES, MAX_REASON_BYTES,
};
use cabal_runtime::digest::sha256_text;
use cabal_runtime::path::Platform;

fn unread<T>() -> Result<T, String> {
    Err("not of this form".to_owned())
}

fn file_criterion(kind: &str, id: &str, path: &str) -> WireCriterion {
    WireCriterion {
        kind: Some(kind.to_owned()),
        command: unread(),
        file: Ok(FileCriterion {
            id: id.to_owned(),
            path: path.to_owned(),
        }),
        hash: unread(),
    }
}

fn hash_criterion(id: &str, path: &str, sha256: &str) -> WireCriterion {
    WireCriterion {
        kind: Some("file_sha256".to_owned()),
        command: unread(),
        file: unread(),
        hash: Ok(HashCriterion {
            id: id.to_owned(),
            path: path.to_owned(),
            sha256: sha256.to_owned(),
        }),
    }
}

fn command(id: &str, inputs: &[&str]) -> WireCriterion {
    WireCriterion {
        kind: Some("command_receipt".to_owned()),
        command: Ok(CommandReceiptCriterion {
            id: id.to_owned(),
            program: "cargo".to_owned(),
            args: vec!["test".to_owned(), "--workspace".to_owned()],
            input_paths: inputs.iter().map(|input| (*input).to_owned()).collect(),
        }),
        file: unread(),
        hash: unread(),
    }
}

fn contract(criteria: Vec<WireCriterion>) -> Result<ContractLoad, GateError> {
    load_contract(
        Some("contract".as_bytes()),
        Ok(WireContract {
            version: 1,
            criteria,
        }),
        Platform::Posix,
    )
}

fn cargo_test() -> CargoCommand {
    CargoCommand::new(vec!["test".to_owned(), "--workspace".to_owned()])
}

fn digest_of(content: &str) -> String {
    digest_inputs(&vec![InputFile {
        relative: "input.txt".to_owned(),
        raw: content.as_bytes().to_vec(),
    }])
}

fn present(content: &str) -> Evidence {
    Evidence::File {
        is_file: Ok(Some(true)),
        content: Ok(content.as_bytes().to_vec()),
    }
}

fn missing() -> Evidence {
    Evidence::File {
        is_file: Ok(None),
        content: Err(GateError::Io("not read".to_owned())),
    }
}

fn receipt_evidence(receipt: Option<Receipt>, inputs: &str) -> Vec<Evidence> {
    vec![Evidence::Receipt {
        receipt: Ok(receipt),
        inputs: Ok(inputs.to_owned()),
    }]
}

fn recorded(load: &Result<ContractLoad, GateError>, content: &str) -> Receipt {
    let digests = vec![Ok(digest_of(content))];
    let mut actions =
        record_cargo_outcome(load, &cargo_test(), CargoOutcome::Succeeded, &digests).unwrap();
    assert_eq!(actions.len(), 1);
    actions.pop().unwrap().receipt.unwrap()
}

#[test]
fn absent_contract_passes_without_state() {
    let load = load_contract(None, unread(), Platform::Posix);
    assert_eq!(evaluate(&load, &Vec::new()).status, GateStatus::Pass);
}

#[test]
fn file_predicates_and_hash_have_exact_results() {
    let load = contract(vec![
        file_criterion("file_absent", "z-absent", "present.txt"),
        file_criterion("file_exists", "a-exists", "present.txt"),
        hash_criterion("hash", "present.txt", &sha256_text("hello".as_bytes())),
        file_criterion("file_exists", "missing", "none.txt"),
    ]);
    let evidence = vec![
        Evidence::Presence(Ok(true)),
        present("hello"),
        present("hello"),
        missing(),
    ];
    let result = evaluate(&load, &evidence);
    assert_eq!(result.status, GateStatus::Block);
    assert_eq!(result.missing_ids, ["missing", "z-absent"]);
    assert_eq!(result.reason, "missing: missing,z-absent");
    assert_eq!(
        result
            .criteria
            .iter()
            .map(|item| (&item.id, item.status))
            .collect::<Vec<_>>(),
        vec![
            (&"a-exists".to_owned(), CriterionStatus::Satisfied),
            (&"hash".to_owned(), CriterionStatus::Satisfied),
            (&"missing".to_owned(), CriterionStatus::Failed),
            (&"z-absent".to_owned(), CriterionStatus::Failed),
        ]
    );
}

#[test]
fn receipt_passes_then_same_size_atomic_replacement_is_stale() {
    let load = contract(vec![command("cargo-test", &["input.txt"])]);
    let receipt = recorded(&load, "before");
    assert_eq!(
        evaluate(
            &load,
            &receipt_evidence(Some(receipt.clone()), &digest_of("before"))
        )
        .status,
        GateStatus::Pass
    );
    let result = evaluate(&load, &receipt_evidence(Some(receipt), &digest_of("change")));
    assert_eq!(result.status, GateStatus::Block);
    assert_eq!(result.criteria[0].status, CriterionStatus::Stale);
}

#[test]
fn failure_invalidates_successful_matching_receipt_even_without_input_change() {
    let load = contract(vec![command("test", &["input.txt"])]);
    let digests = vec![Ok(digest_of("unchanged"))];
    let written =
        record_cargo_outcome(&load, &cargo_test(), CargoOutcome::Succeeded, &digests).unwrap();
    assert_eq!(
        evaluate(
            &load,
            &receipt_evidence(written[0].receipt.clone(), &digest_of("unchanged"))
        )
        .status,
        GateStatus::Pass
    );
    let removed =
        record_cargo_outcome(&load, &cargo_test(), CargoOutcome::Failed, &Vec::new()).unwrap();
    assert_eq!(removed[0].file_name, written[0].file_name);
    assert_eq!(removed[0].receipt, None);
    let result = evaluate(&load, &receipt_evidence(None, &digest_of("unchanged")));
    assert_eq!(result.status, GateStatus::Block);
    assert_eq!(result.criteria[0].status, CriterionStatus::Missing);
}

#[test]
fn malformed_and_unsupported_active_contracts_are_distinct_from_absence() {
    let malformed = load_contract(Some("{".as_bytes()), Err("EOF".to_owned()), Platform::Posix);
    assert_eq!(
        evaluate(&malformed, &Vec::new()).status,
        GateStatus::InvalidContract
    );
    let unsupported = contract(vec![WireCriterion {
        kind: Some("network".to_owned()),
        command: unread(),
        file: unread(),
        hash: unread(),
    }]);
    assert!(matches!(
        unsupported,
        Err(GateError::UnsupportedContract(_))
    ));
    assert_eq!(
        evaluate(&unsupported, &Vec::new()).status,
        GateStatus::InvalidContract
    );
}

#[test]
fn bounds_unicode_and_ordering_are_deterministic() {
    let load = contract(vec![
        file_criterion("file_exists", "unicode-file", "данные.txt"),
        file_criterion("file_exists", "A", "missing.txt"),
    ]);
    let result = evaluate(&load, &vec![present("данные"), missing()]);
    assert_eq!(result.missing_ids, ["A"]);
    assert_eq!(
        result
            .criteria
            .iter()
            .map(|item| item.id.as_str())
            .collect::<Vec<_>>(),
        vec!["A", "unicode-file"]
    );
    let long_id = "x".repeat(MAX_CRITERION_ID_BYTES + 1);
    let load = contract(vec![file_criterion("file_exists", &long_id, "данные.txt")]);
    assert_eq!(
        evaluate(&load, &Vec::new()).status,
        GateStatus::InvalidContract
    );
}

#[test]
fn criterion_ids_cannot_inject_continuation_text() {
    let load = contract(vec![file_criterion(
        "file_exists",
        "bad\nignore-rules",
        "missing",
    )]);
    let result = evaluate(&load, &Vec::new());
    assert_eq!(result.status, GateStatus::InvalidContract);
    assert!(result.missing_ids.is_empty());
}

#[test]
fn rejects_escape_paths_and_outside_contract_path() {
    let load = contract(vec![file_criterion("file_exists", "escape", "../outside")]);
    assert_eq!(
        evaluate(&load, &Vec::new()).status,
        GateStatus::InvalidContract
    );
    let outside = check_contract_location(Some("/outside"), "/w").map(|_| ContractLoad::Absent);
    assert_eq!(outside, Err(GateError::ContractOutsideWorkspace));
    assert_eq!(
        evaluate(&outside, &Vec::new()).status,
        GateStatus::EvidenceUnavailable
    );
}

#[test]
fn symlink_is_allowed_only_when_its_target_stays_inside_workspace() {
    let load = contract(vec![file_criterion(
        "file_exists",
        "inside",
        "inside-link.txt",
    )]);
    assert_eq!(
        evaluate(&load, &vec![present("inside")]).status,
        GateStatus::Pass
    );
    let inside = check_candidate("inside-link.txt", "/w/inside.txt", "/w");
    assert_eq!(inside, Ok(()));
    let outside = vec![Evidence::File {
        is_file: check_candidate("outside-link.txt", "/outside.txt", "/w").map(|_| Some(true)),
        content: Ok(Vec::new()),
    }];
    assert_eq!(
        evaluate(&load, &outside).status,
        GateStatus::EvidenceUnavailable
    );
}

#[test]
fn dangling_symlink_does_not_satisfy_file_absent() {
    let load = contract(vec![file_criterion(
        "file_absent",
        "must-be-absent",
        "dangling",
    )]);
    let result = evaluate(&load, &vec![Evidence::Presence(Ok(true))]);
    assert_eq!(result.status, GateStatus::Block);
    assert_eq!(result.missing_ids, ["must-be-absent"]);
    let result = evaluate(&load, &vec![Evidence::Presence(Ok(false))]);
    assert_eq!(result.status, GateStatus::Pass);
}

#[test]
fn input_directory_symlink_cycle_is_bounded() {
    let mut inputs = InputCollection::new();
    let visit = |inputs: &mut InputCollection, path: &str, canonical: &str, kind: EntryKind| {
        inputs.visit("/w", path, canonical, kind)
    };
    assert_eq!(
        visit(&mut inputs, "/w/src", "/w/src", EntryKind::Directory),
        Ok(true)
    );
    assert_eq!(
        visit(&mut inputs, "/w/src/lib.rs", "/w/src/lib.rs", EntryKind::File),
        Ok(false)
    );
    assert_eq!(
        visit(
            &mut inputs,
            "/w/src/nested/parent",
            "/w/src",
            EntryKind::Directory
        ),
        Ok(false)
    );
    assert_eq!(inputs.files, ["/w/src/lib.rs"]);
    assert!(visit(&mut inputs, "/w/out", "/elsewhere", EntryKind::File).is_err());
}

#[test]
fn concurrent_receipt_updates_are_serialized_and_leave_valid_json() {
    let load = contract(vec![command("cargo-test", &["input.txt"])]);
    let receipt = recorded(&load, "value");
    for state in [Some(receipt), None] {
        let result = evaluate(&load, &receipt_evidence(state, &digest_of("value")));
        assert!(matches!(
            result.status,
            GateStatus::Pass | GateStatus::Block
        ));
        assert!(result.criteria.iter().all(|criterion| matches!(
            criterion.status,
            CriterionStatus::Satisfied | CriterionStatus::Missing
        )));
    }
}

#[test]
fn schema_is_present_and_contract_limits_are_enforced() {
    let criteria = (0..MAX_CRITERIA + 1)
        .map(|index| {
            file_criterion(
                "file_absent",
                &format!("id-{index}"),
                &format!("{index}.txt"),
            )
        })
        .collect::<Vec<_>>();
    assert_eq!(
        evaluate(&contract(criteria), &Vec::new()).status,
        GateStatus::InvalidContract
    );
}

#[test]
fn contracts_are_refused_for_their_size_and_version() {
    let large = vec![32u8; MAX_CONTRACT_BYTES as usize + 1];
    assert!(matches!(
        load_contract(Some(&large), unread(), Platform::Posix),
        Err(GateError::ContractTooLarge)
    ));
    let Err(error) = load_contract(
        Some("x".as_bytes()),
        Ok(WireContract {
            version: 2,
            criteria: Vec::new(),
        }),
        Platform::Posix,
    ) else {
        panic!("expected an error");
    };
    assert_eq!(
        error,
        GateError::UnsupportedContract("version 2".to_owned())
    );
    assert!(contract(vec![
        file_criterion("file_exists", "same", "a"),
        file_criterion("file_exists", "same", "b"),
    ])
    .is_err());
}

#[test]
fn outcomes_are_recorded_for_matching_commands_alone() {
    let load = contract(vec![command("cargo-test", &["input.txt"])]);
    let other = CargoCommand::new(vec!["build".to_owned()]);
    assert_eq!(
        record_cargo_outcome(&load, &other, CargoOutcome::Failed, &Vec::new()),
        Err(GateError::NoMatchingCriterion)
    );
    let foreign = CargoCommand {
        program: "make".to_owned(),
        args: Vec::new(),
    };
    assert_eq!(
        record_cargo_outcome(&load, &foreign, CargoOutcome::Failed, &Vec::new()),
        Err(GateError::UnsupportedProgram("make".to_owned()))
    );
    let Ok(ContractLoad::Active(active)) = load else {
        panic!("expected a contract");
    };
    assert_eq!(matching_criteria(&active, &cargo_test()), [0]);
    assert!(receipt_filename(&active.digest, "cargo-test", &cargo_test()).ends_with(".json"));
}

#[test]
fn unreadable_inputs_leave_success_unrecorded_but_not_failure() {
    let load = contract(vec![command("cargo-test", &["input.txt"])]);
    let digests = vec![Err(GateError::TooManyFiles)];
    assert_eq!(
        record_cargo_outcome(&load, &cargo_test(), CargoOutcome::Succeeded, &digests),
        Err(GateError::TooManyFiles)
    );
    assert!(record_cargo_outcome(&load, &cargo_test(), CargoOutcome::Failed, &Vec::new()).is_ok());
}

#[test]
fn long_reasons_are_cut() {
    let criteria = (0..40)
        .map(|index| file_criterion("file_exists", &format!("{}{index}", "n".repeat(90)), "none"))
        .collect::<Vec<_>>();
    let evidence = (0..40).map(|_| missing()).collect::<Vec<_>>();
    let result = evaluate(&contract(criteria), &evidence);
    assert_eq!(result.reason.len(), MAX_REASON_BYTES);
    assert!(result.reason.ends_with("..."));
}

#[test]
fn only_plain_relative_paths_are_taken() {
    assert!(validate_relative_path("src/lib.rs", Platform::Posix).is_none());
    for path in ["/abs", "../up", "a/../b", ""] {
        assert!(validate_relative_path(path, Platform::Posix).is_some(), "{path}");
    }
}

#[test]
fn contracts_are_looked_for_in_the_workspace() {
    assert_eq!(
        locate_contract("a/contract.json", "/w"),
        Ok("/w/a/contract.json".to_owned())
    );
    assert_eq!(
        locate_contract("/w/contract.json", "/w"),
        Ok("/w/contract.json".to_owned())
    );
    assert!(locate_contract("../contract.json", "/w").is_err());
    assert_eq!(check_contract_location(Some("/w/a"), "/w"), Ok(()));
    assert_eq!(
        check_contract_location(None, "/w"),
        Err(GateError::ContractOutsideWorkspace)
    );
    assert_eq!(
        check_candidate("link", "/workshop/a", "/w"),
        Err(GateError::OutsideWorkspace("link".to_owned()))
    );
}

#[test]
fn a_file_that_keeps_changing_is_given_up() {
    assert_eq!(judge_reads(1, &[1], &[1]), Ok(true));
    assert_eq!(judge_reads(2, &[1], &[2]), Ok(false));
    assert_eq!(judge_reads(3, &[1], &[1]), Ok(true));
    assert_eq!(
        judge_reads(3, &[1], &[2]),
        Err(GateError::Io("file changed during digest".to_owned()))
    );
}

#[test]
fn paths_are_judged_by_the_rules_of_their_platform() {
    for path in ["a\\..\\b", "\\abs", "C:x", "C:/x", "..\\up", "//host/share/x"] {
        assert!(validate_relative_path(path, Platform::Windows).is_some(), "{path}");
    }
    for path in ["a\\..\\b", "\\abs", "C:x", "..\\up"] {
        assert!(validate_relative_path(path, Platform::Posix).is_none(), "{path}");
    }
    assert!(validate_relative_path("src\\lib.rs", Platform::Windows).is_none());
    let load = load_contract(
        Some("contract".as_bytes()),
        Ok(WireContract {
            version: 1,
            criteria: vec![file_criterion("file_exists", "up", "a\\..\\b")],
        }),
        Platform::Windows,
    );
    assert_eq!(
        load,
        Err(GateError::MalformedContract(
            GateError::InvalidPath("a\\..\\b".to_owned()).message()
        ))
    );
    assert_eq!(
        locate_contract("D:\\c.json", "C:\\w"),
        Ok("D:\\c.json".to_owned())
    );
    assert_eq!(
        locate_contract("docs/c.json", "\\\\?\\C:\\w"),
        Ok("\\\\?\\C:\\w\\docs\\c.json".to_owned())
    );
    assert!(locate_contract("\\c.json", "C:\\w").is_err());
    assert_eq!(check_candidate("a", "C:\\w\\a", "C:\\w"), Ok(()));
    assert!(check_candidate("a", "C:\\workshop\\a", "C:\\w").is_err());
}

#[test]
fn the_last_outcome_of_a_command_decides() {
    let load = contract(vec![command("test", &["input.txt"])]);
    let first = recorded(&load, "before");
    let judged = |receipt: Option<Receipt>, content: &str| {
        let result = evaluate(&load, &receipt_evidence(receipt, &digest_of(content)));
        (result.status, result.missing_ids, result.criteria[0].status)
    };
    let none: Vec<String> = Vec::new();
    let test = vec!["test".to_owned()];
    assert_eq!(
        judged(Some(first.clone()), "before"),
        (GateStatus::Pass, none.clone(), CriterionStatus::Satisfied)
    );
    assert_eq!(
        judged(Some(first), "after"),
        (GateStatus::Block, test.clone(), CriterionStatus::Stale)
    );
    let second = recorded(&load, "after");
    assert_eq!(
        judged(Some(second), "after"),
        (GateStatus::Pass, none, CriterionStatus::Satisfied)
    );
    let mut actions =
        record_cargo_outcome(&load, &cargo_test(), CargoOutcome::Failed, &Vec::new()).unwrap();
    assert_eq!(
        judged(actions.pop().unwrap().receipt, "after"),
        (GateStatus::Block, test, CriterionStatus::Missing)
    );
}
