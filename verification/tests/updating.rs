use rkbx_link::fetch::{describe_refusal, get_file, Errand, Outcome};
use rkbx_link::launch::{descending_versions, repository, select_version, wants_update};
use rkbx_link::output::{Level, Output};
use rkbx_link::protocol::{Fault, Next};
use rkbx_link::updater::update_routine;
use std::collections::{HashMap, HashSet};

/// What the repository and the disk hold.
#[derive(Clone)]
struct Remote {
    files: HashMap<String, (u16, Result<String, String>)>,
    disk: HashMap<String, String>,
    read_only: HashSet<String>,
    /// The files that were asked for.
    requested: Vec<String>,
}

impl Remote {
    fn new() -> Remote {
        let mut files = HashMap::new();
        for (name, text) in [("version_exe", "1.2.3\n"), ("version_offsets", " 7\n"), ("offsets", "o7")] {
            let url = format!("https://raw.githubusercontent.com/me/repo/{name}");
            files.insert(url, (200, Ok(text.to_string())));
        }
        let mut disk = HashMap::new();
        disk.insert("offsets".to_string(), "o6".to_string());
        disk.insert("version_offsets".to_string(), "6".to_string());
        Remote { files, disk, read_only: HashSet::new(), requested: vec![] }
    }

    fn set(&mut self, name: &str, status: u16, text: Result<&str, &str>) {
        let url = format!("https://raw.githubusercontent.com/me/repo/{name}");
        let text = text.map(|s| s.to_string()).map_err(|s| s.to_string());
        self.files.insert(url, (status, text));
    }

    fn remove(&mut self, name: &str) {
        self.files.remove(&format!("https://raw.githubusercontent.com/me/repo/{name}"));
    }

    fn run(&mut self, q: Errand) -> Outcome {
        let local = |p: &str| p.trim_start_matches("./").to_string();
        match q {
            Errand::Get(url) => {
                let name = url.strip_prefix("https://raw.githubusercontent.com/me/repo/");
                self.requested.push(name.unwrap().to_string());
                Outcome::Get(self.files.get(&url).map(|f| f.0))
            }
            Errand::Body(url) => Outcome::Body(self.files[&url].1.clone()),
            Errand::Exists(p) => Outcome::Exists(self.disk.contains_key(&local(&p))),
            Errand::ReadText(p) => Outcome::ReadText(self.disk.get(&local(&p)).cloned()),
            Errand::Write(p, text) => {
                let ok = !self.read_only.contains(&p);
                if ok {
                    self.disk.insert(p, text);
                }
                Outcome::Write(ok)
            }
        }
    }

    /// Looks for updates, as version 1.2.3.
    fn update(&mut self) -> (Vec<String>, Option<Fault>) {
        let mut out: Vec<Output> = Vec::new();
        let mut n = update_routine("me/repo", &mut out);
        let fault = loop {
            match n {
                Next::Ask(q, s) => {
                    let outcome = self.run(q);
                    n = s.resume("me/repo", "1.2.3", outcome, &mut out);
                }
                Next::Done(()) => break None,
                Next::Fault(f) => break Some(f),
            }
        };
        (lines(out), fault)
    }
}

fn lines(out: Vec<Output>) -> Vec<String> {
    out.into_iter()
        .map(|o| match o {
            Output::Log(Level::Info, s) => format!("I {s}"),
            Output::Log(Level::Warn, s) => format!("W {s}"),
            Output::Log(Level::Error, s) => format!("E {s}"),
            o => format!("{o:?}"),
        })
        .collect()
}

#[test]
fn older_offsets_are_replaced() {
    let mut remote = Remote::new();
    let (told, fault) = remote.update();
    assert_eq!(
        told,
        vec![
            "I Checking for updates...",
            "I Program up to date (v1.2.3)",
            "I Offset update available",
            "I Downloading offsets...",
            "I Offsets updated",
        ]
    );
    assert_eq!(fault, None);
    assert_eq!(remote.disk["offsets"], "o7");
    assert_eq!(remote.disk["version_offsets"], "7");
    // Another look finds them up to date.
    let (told, _) = remote.update();
    assert_eq!(told[2..], ["I Offsets up to date (v7)"]);
}

#[test]
fn newer_offsets_are_kept() {
    let mut remote = Remote::new();
    remote.disk.insert("version_offsets".to_string(), "8 ".to_string());
    let (told, _) = remote.update();
    assert_eq!(told[2..], ["I Offsets up to date (v7)"]);
    assert_eq!(remote.disk["offsets"], "o6");
}

#[test]
fn missing_files_are_fetched() {
    let mut remote = Remote::new();
    remote.disk.remove("version_offsets");
    let (told, _) = remote.update();
    assert_eq!(
        told[2..],
        [
            "W Missing version_offsets file",
            "W Failed to read version_offsets file",
            "I Downloading offsets...",
            "I Offsets updated"
        ]
    );
    assert_eq!(remote.disk["version_offsets"], "7");

    let mut remote = Remote::new();
    remote.disk.clear();
    let (told, _) = remote.update();
    assert_eq!(
        told[2..],
        [
            "W Missing version_offsets file",
            "W Missing offsets file",
            "I Downloading offsets...",
            "I Offsets updated"
        ]
    );

    let mut remote = Remote::new();
    remote.disk.insert("version_offsets".to_string(), "seven".to_string());
    let (told, _) = remote.update();
    assert_eq!(told[2], "W Failed to parse version_offsets file");
    assert_eq!(remote.disk["version_offsets"], "7");
}

#[test]
fn another_program_version_ends_the_look() {
    let mut remote = Remote::new();
    remote.set("version_exe", 200, Ok(" 2.0.0 \n"));
    let (told, fault) = remote.update();
    assert_eq!(
        told[1..],
        [
            "W  ",
            "W    !! Executable update available: v2.0.0 !!",
            "W Update the program to get the latest offset updates",
            "W "
        ]
    );
    assert_eq!(fault, None);
    assert_eq!(remote.disk["offsets"], "o6");
}

#[test]
fn failures_to_fetch_are_told() {
    let mut remote = Remote::new();
    remote.remove("version_exe");
    let (told, _) = remote.update();
    assert_eq!(
        told[1..],
        ["E Failed to fetch new executable version from repository: Get error: https://raw.githubusercontent.com/me/repo/version_exe"]
    );

    let mut remote = Remote::new();
    remote.set("version_exe", 404, Ok("nothing here"));
    let (told, _) = remote.update();
    assert_eq!(
        told[1..],
        ["E Failed to fetch new executable version from repository: Get error 404 Not Found: https://raw.githubusercontent.com/me/repo/version_exe"]
    );

    let mut remote = Remote::new();
    remote.set("version_exe", 299, Err("cut off"));
    let (told, _) = remote.update();
    assert_eq!(
        told[1..],
        ["E Failed to fetch new executable version from repository: cut off"]
    );

    let mut remote = Remote::new();
    remote.remove("version_offsets");
    let (told, _) = remote.update();
    assert_eq!(told[2..], ["E Failed to fetch new offset version from repository"]);

    let mut remote = Remote::new();
    remote.set("version_offsets", 200, Ok("7.5\n"));
    let (told, _) = remote.update();
    assert_eq!(told[2..], ["E Failed to parse new offset version: 7.5\n"]);

    let mut remote = Remote::new();
    remote.set("offsets", 500, Ok(""));
    let (told, _) = remote.update();
    assert_eq!(told[3..], ["I Downloading offsets...", "E Failed to fetch offsets from repository"]);
    assert_eq!(remote.disk["offsets"], "o6");
}

#[test]
fn files_that_cannot_be_written_are_faults() {
    let mut remote = Remote::new();
    remote.read_only.insert("offsets".to_string());
    assert_eq!(remote.update().1, Some(Fault::FileNotWritten));
    let mut remote = Remote::new();
    remote.read_only.insert("version_offsets".to_string());
    assert_eq!(remote.update().1, Some(Fault::FileNotWritten));
    assert_eq!(remote.disk["offsets"], "o7");
    assert_eq!(remote.disk["version_offsets"], "6");
}

#[test]
fn files_are_fetched_by_url() {
    match get_file("a/b", "x/y") {
        Next::Ask(Errand::Get(url), s) => {
            assert_eq!(url, "https://raw.githubusercontent.com/x/y/a/b");
            assert!(!s.answered);
            match s.resume(Outcome::Get(Some(200))) {
                Next::Ask(Errand::Body(same), s) => {
                    assert_eq!(same, url);
                    assert!(matches!(s.resume(Outcome::Get(None)), Next::Fault(Fault::UnexpectedReply)));
                }
                n => panic!("{n:?}"),
            }
        }
        n => panic!("{n:?}"),
    }
}

#[test]
fn statuses_are_called_by_their_names() {
    let refused = |code: u16| match get_file("p", "r") {
        Next::Ask(_, s) => match s.resume(Outcome::Get(Some(code))) {
            Next::Done(Err(e)) => e,
            n => panic!("{n:?}"),
        },
        n => panic!("{n:?}"),
    };
    let url = "https://raw.githubusercontent.com/r/p";
    assert_eq!(refused(301), format!("Get error 301 Moved Permanently: {url}"));
    assert_eq!(refused(100), format!("Get error 100 Continue: {url}"));
    assert_eq!(refused(999), format!("Get error 999 <unknown status code>: {url}"));
    assert_eq!(describe_refusal("418 Tea", "u"), "Get error 418 Tea: u");
    match get_file("p", "r") {
        Next::Ask(_, s) => {
            assert!(matches!(s.resume(Outcome::Get(Some(99))), Next::Fault(Fault::UnexpectedReply)));
        }
        _ => unreachable!(),
    }
}

#[test]
fn versions_are_put_in_descending_order() {
    let strings = |v: &[&str]| v.iter().map(|s| s.to_string()).collect::<Vec<_>>();
    let mut given = strings(&["6.7.7", "7.0.4", "6.10.0", "", "7", "7.0.4", "\u{e9}", "z"]);
    let sorted = descending_versions(given.clone());
    given.sort();
    given.reverse();
    assert_eq!(sorted, given);
    assert_eq!(descending_versions(vec![]), Vec::<String>::new());
    // The order in which they come does not matter.
    let a = descending_versions(strings(&["b", "a", "c"]));
    let b = descending_versions(strings(&["c", "b", "a"]));
    assert_eq!(a, b);
}

#[test]
fn version_is_chosen() {
    let versions = || vec!["6.8.5".to_string(), "7.1.0".to_string(), "7.0.4".to_string()];
    let mut out = Vec::new();
    let r = select_version(versions(), None, &mut out);
    assert_eq!(r, Ok(Some("7.1.0".to_string())));
    assert_eq!(
        lines(out),
        vec![
            "LogVersions([\"7.1.0\", \"7.0.4\", \"6.8.5\"])",
            "W No version specified in config, using latest version",
            "I Targeting Rekordbox version: 7.1.0",
        ]
    );

    let mut out = Vec::new();
    let r = select_version(versions(), Some("6.8.5".to_string()), &mut out);
    assert_eq!(r, Ok(Some("6.8.5".to_string())));
    assert_eq!(lines(out)[1..], ["I Targeting Rekordbox version: 6.8.5"]);

    let mut out = Vec::new();
    let r = select_version(versions(), Some("5".to_string()), &mut out);
    assert_eq!(r, Ok(None));
    assert_eq!(
        lines(out)[1..],
        [
            "I Targeting Rekordbox version: 5",
            "E Offsets for Rekordbox version 5 not available"
        ]
    );

    let mut out = Vec::new();
    assert_eq!(select_version(vec![], None, &mut out), Err(Fault::NoVersions));
    assert_eq!(out.len(), 2);
    let mut out = Vec::new();
    assert_eq!(select_version(vec![], Some("5".to_string()), &mut out), Ok(None));
}

#[test]
fn updates_are_looked_for_by_default() {
    let mut out = Vec::new();
    assert!(wants_update(None, true, &mut out));
    assert!(wants_update(Some(true), true, &mut out));
    assert!(!wants_update(Some(false), true, &mut out));
    assert!(out.is_empty());
    assert!(wants_update(Some(false), false, &mut out));
    assert_eq!(lines(out), vec!["E No offset file found, updating..."]);
    assert_eq!(repository(None), "grufkork/rkbx_link");
    assert_eq!(repository(Some("a/b".to_string())), "a/b");
}

#[test]
fn only_what_is_needed_is_fetched() {
    let mut remote = Remote::new();
    remote.update();
    assert_eq!(remote.requested, vec!["version_exe", "version_offsets", "offsets"]);
    // Up to date: the versions only.
    remote.requested.clear();
    remote.update();
    assert_eq!(remote.requested, vec!["version_exe", "version_offsets"]);
    // Another program version: nothing but that.
    remote.requested.clear();
    remote.set("version_exe", 200, Ok("9"));
    remote.update();
    assert_eq!(remote.requested, vec!["version_exe"]);
    // An offset version that cannot be told.
    let mut remote = Remote::new();
    remote.set("version_offsets", 404, Ok("7"));
    remote.update();
    assert_eq!(remote.requested, vec!["version_exe", "version_offsets"]);
}
