use foundry_compilers::compilers::zksolc::install as locked;
use foundry_compilers::error::SolcError;
use foundry_compilers::zksync::compile::install as plain;
use foundry_compilers::zksync::compile::install::InstallEvent::{Done, Found};
use foundry_compilers::zksync::compile::install::InstallStep;

fn answered() -> locked::InstallEvent {
    locked::InstallEvent::Answered { success: true, status: "200 OK".to_string() }
}

fn run(events: Vec<locked::InstallEvent>) -> locked::InstallStep {
    let mut step = locked::InstallStep::Request;
    for event in events {
        step = step.next(event, "solc-0.8.27");
    }
    step
}

fn failed(step: locked::InstallStep) -> String {
    match step {
        locked::InstallStep::Failed(SolcError::Message(message)) => message,
        other => panic!("{other:?}"),
    }
}

fn done() -> locked::InstallEvent {
    locked::InstallEvent::Done
}

fn error() -> locked::InstallEvent {
    locked::InstallEvent::Error("why".to_string())
}

fn found(there: bool) -> locked::InstallEvent {
    locked::InstallEvent::Found(there)
}

#[test]
fn a_compiler_is_written_once_the_lock_is_taken() {
    let step = run(vec![answered(), done(), done(), done(), found(true)]);
    assert!(matches!(step, locked::InstallStep::Finished));
    let step = run(vec![answered(), done(), done(), done(), found(false), done(), done()]);
    assert!(matches!(step, locked::InstallStep::SetPermissions));
    let step = run(vec![answered(), done(), done(), done(), found(false), done(), done(), done()]);
    assert!(matches!(step, locked::InstallStep::Finished));
    assert!(matches!(run(vec![answered()]), locked::InstallStep::Download));
    assert!(matches!(run(vec![answered(), done()]), locked::InstallStep::OpenLock));
    assert!(matches!(run(vec![answered(), done(), done()]), locked::InstallStep::TakeLock));
    assert!(matches!(run(vec![answered(), done(), done(), done()]), locked::InstallStep::Check));
}

#[test]
fn every_failure_of_an_installation_is_told() {
    assert_eq!(failed(run(vec![error()])), "Failed to download solc-0.8.27 file: why");
    let refused =
        locked::InstallEvent::Answered { success: false, status: "404 Not Found".to_string() };
    assert_eq!(
        failed(run(vec![refused])),
        "Failed to download solc-0.8.27 file: status code 404 Not Found"
    );
    assert_eq!(
        failed(run(vec![answered(), error()])),
        "failed to download solc-0.8.27 file: why"
    );
    assert_eq!(failed(run(vec![answered(), done(), error()])), "Error creating lock file");
    assert_eq!(failed(run(vec![answered(), done(), done(), error()])), "Error taking the lock");
    let start = || vec![answered(), done(), done(), done(), found(false)];
    let mut events = start();
    events.push(error());
    assert_eq!(failed(run(events)), "Failed to create output solc-0.8.27 file: why");
    let mut events = start();
    events.extend(vec![done(), error()]);
    assert_eq!(failed(run(events)), "Failed to write the downloaded solc-0.8.27 file: why");
    let mut events = start();
    events.extend(vec![done(), done(), error()]);
    assert_eq!(failed(run(events)), "Failed to set solc-0.8.27 permissions: why");
}

fn run_plain(events: Vec<plain::InstallEvent>) -> plain::InstallStep {
    let mut step = plain::InstallStep::Request;
    for event in events {
        step = step.next(event);
    }
    step
}

fn plain_failed(events: Vec<plain::InstallEvent>) -> String {
    match run_plain(events) {
        plain::InstallStep::Failed(SolcError::Message(message)) => message,
        other => panic!("{other:?}"),
    }
}

fn sent() -> plain::InstallEvent {
    plain::InstallEvent::Answered { success: true, status: "200 OK".to_string() }
}

fn why() -> plain::InstallEvent {
    plain::InstallEvent::Error("why".to_string())
}

#[test]
fn the_directory_of_the_compilers_is_created_where_it_is_missing() {
    assert!(matches!(run_plain(vec![sent()]), InstallStep::CheckDir));
    assert!(matches!(run_plain(vec![sent(), Found(false)]), InstallStep::CreateDir));
    assert!(matches!(run_plain(vec![sent(), Found(false), Done]), InstallStep::Create));
    assert!(matches!(run_plain(vec![sent(), Found(true)]), InstallStep::Create));
    assert!(matches!(run_plain(vec![sent(), Found(true), Done]), InstallStep::Download));
    assert!(matches!(run_plain(vec![sent(), Found(true), Done, Done]), InstallStep::Write));
    let step = run_plain(vec![sent(), Found(true), Done, Done, Done]);
    assert!(matches!(step, InstallStep::SetPermissions));
    let step = run_plain(vec![sent(), Found(true), Done, Done, Done, Done]);
    assert!(matches!(step, InstallStep::Finished));
}

#[test]
fn every_failure_of_a_plain_installation_is_told() {
    assert_eq!(plain_failed(vec![why()]), "Failed to download file: why");
    let refused = plain::InstallEvent::Answered { success: false, status: "404".to_string() };
    assert_eq!(plain_failed(vec![refused]), "Failed to download file: status code 404");
    assert_eq!(
        plain_failed(vec![sent(), Found(false), why()]),
        "Could not create compilers path: why"
    );
    assert_eq!(plain_failed(vec![sent(), Found(true), why()]), "Failed to create output file: why");
    assert_eq!(
        plain_failed(vec![sent(), Found(true), Done, why()]),
        "failed to download file: why"
    );
    assert_eq!(
        plain_failed(vec![sent(), Found(true), Done, Done, why()]),
        "Failed to write the downloaded file: why"
    );
    assert_eq!(
        plain_failed(vec![sent(), Found(true), Done, Done, Done, why()]),
        "Failed to set zksync compiler permissions: why"
    );
}
