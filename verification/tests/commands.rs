use llmman::cmd::inspect::{inspect_local, run as inspect, InspectArgs, InspectPlan};
use llmman::cmd::list::{human_size, relative_time, run as list, short_id, HumanSize};
use llmman::cmd::login::{read_password_stdin, run as login, succeeded, LoginArgs, PasswordSource};
use llmman::cmd::logout::{run as logout, LogoutArgs};
use llmman::cmd::pull::{run as pull, PullArgs};
use llmman::cmd::push::{run as push, PushArgs};
use llmman::cmd::rm::{not_removed, remove_one, run as rm, Removal, RmArgs, SOME_FAILED};
use llmman::cmd::tag::{run as tag, TagArgs};
use llmman::storage::oci::{Descriptor, ImageSummary, OciStore};
use llmman::string_map::StringMap;
use llmman::{default_store, BaseDir};

fn store() -> OciStore {
    let mut s = OciStore::open("/s", None);
    for (digest, name) in [("sha256:aa", "hf.co/a:v1"), ("sha256:bb", "hf.co/b:v2"), ("bad", "x.y/c")] {
        let d = Descriptor {
            media_type: "t".to_string(),
            digest: digest.to_string(),
            size: 1,
            annotations: None,
        };
        s.tag(d, name);
    }
    s
}

fn aliases() -> StringMap {
    StringMap::from_pairs(vec![("short".to_string(), "hf.co/a:v1".to_string())])
}

#[test]
fn the_store_lies_in_the_home_directory() {
    let home = BaseDir::Home(Some("/home/u".to_string()));
    assert_eq!(default_store(None, &home), Ok("/home/u/.local/share/llmman/store".to_string()));
    assert_eq!(default_store(Some("/x"), &home), Ok("/x".to_string()));
    assert_eq!(
        default_store(None, &BaseDir::LocalData(Some("D".to_string()))),
        Ok("D/llmman/store".to_string())
    );
    assert_eq!(
        default_store(None, &BaseDir::Home(None)),
        Err("could not determine home directory".to_string())
    );
    assert_eq!(
        default_store(None, &BaseDir::LocalData(None)),
        Err("could not determine local data directory".to_string())
    );
}

#[test]
fn images_are_removed_one_by_one() {
    let mut s = store();
    let args = RmArgs {
        references: vec!["short".to_string(), "nope".to_string(), "b:v2".to_string()],
        store: None,
    };
    let r = rm(&mut s, &args, &aliases());
    assert!(r.any_failed);
    assert!(matches!(&r.removals[0], Removal::Removed(m) if m == "Removed hf.co/a:v1"));
    assert!(matches!(&r.removals[1], Removal::Failed(m)
        if m == "Error removing hf.co/nope: image not found: hf.co/nope"));
    assert!(matches!(&r.removals[2], Removal::Removed(m) if m == "Removed hf.co/b:v2"));
    assert_eq!(s.read_index().manifests.len(), 1);
    assert!(s.find("hf.co/a:v1").is_err());
    assert_eq!(SOME_FAILED, "one or more removals failed");
    let args = RmArgs { references: vec!["x.y/c".to_string()], store: None };
    assert!(!rm(&mut s, &args, &aliases()).any_failed);
}

#[test]
fn stores_that_cannot_be_written_keep_their_images() {
    let mut s = store();
    assert!(matches!(remove_one(&mut s, "short", &aliases()), Removal::Removed(_)));
    assert!(matches!(not_removed("short", &aliases(), "disk full"), Removal::Failed(m)
        if m == "Error removing hf.co/a:v1: disk full"));
}

#[test]
fn images_get_further_references() {
    let mut s = store();
    let mut args =
        TagArgs { source: "short".to_string(), target: "plain".to_string(), store: None };
    assert_eq!(tag(&mut s, &args, &aliases()).unwrap(), "Tagged hf.co/a:v1 as plain");
    assert_eq!(s.find("plain").unwrap().digest, "sha256:aa");
    assert_eq!(s.find("hf.co/a:v1").unwrap().digest, "sha256:aa");
    args.source = "nope".to_string();
    assert_eq!(
        tag(&mut s, &args, &aliases()).unwrap_err().message(),
        "image not found: hf.co/nope"
    );
}

#[test]
fn only_stored_images_are_pushed() {
    let s = store();
    let args = PushArgs { reference: "short".to_string(), store: None };
    let p = push(&s, &args, &aliases()).unwrap();
    assert_eq!((p.reference.as_str(), p.done.as_str()), ("hf.co/a:v1", "Pushed hf.co/a:v1"));
    let args = PushArgs { reference: "nope".to_string(), store: None };
    assert!(push(&s, &args, &aliases()).is_err());
}

#[test]
fn short_names_can_be_pulled() {
    let p = pull(&PullArgs { reference: "short".to_string(), store: None }, &aliases());
    assert_eq!((p.reference.as_str(), p.done.as_str()), ("hf.co/a:v1", "Pulled short"));
}

#[test]
fn manifests_are_inspected_here_or_there() {
    let mut args =
        InspectArgs { reference: "short".to_string(), remote: true, store: None };
    assert!(matches!(inspect(&args, &aliases()), InspectPlan::Remote(r) if r == "hf.co/a:v1"));
    args.remote = false;
    assert!(matches!(inspect(&args, &aliases()), InspectPlan::Local(r) if r == "hf.co/a:v1"));
    let s = store();
    assert_eq!(inspect_local(&s, "hf.co/a:v1").unwrap(), "/s/blobs/sha256/aa");
    assert_eq!(inspect_local(&s, "x.y/c").unwrap_err().message(), "invalid digest: bad");
    assert_eq!(inspect_local(&s, "z").unwrap_err().message(), "image not found: z");
}

#[test]
fn passwords_are_given_or_asked_for() {
    let mut args = LoginArgs {
        server: "registry.example.com".to_string(),
        username: "alice".to_string(),
        password: Some("pw".to_string()),
    };
    assert!(matches!(login(&args), PasswordSource::Given(p) if p == "pw"));
    args.password = None;
    assert!(matches!(login(&args), PasswordSource::Ask(p) if p == "Password: "));
    assert_eq!(read_password_stdin("se cret \r\n"), "se cret ");
    assert_eq!(read_password_stdin("x\n\r\n"), "x");
    assert_eq!(succeeded(&args), "Login succeeded for registry.example.com");
    let args = LogoutArgs { server: "registry.example.com".to_string() };
    assert_eq!(logout(&args), "Logged out of registry.example.com");
}

#[test]
fn digests_are_shortened() {
    assert_eq!(short_id("sha256:b55c07040368ffff"), "b55c07040368");
    assert_eq!(short_id("0123456789abcdef"), "0123456789ab");
    assert_eq!(short_id("sha256:ab"), "ab");
}

#[test]
fn sizes_come_in_the_largest_unit() {
    assert!(matches!(human_size(999), HumanSize::Whole(s) if s == "999 B"));
    assert!(matches!(human_size(0), HumanSize::Whole(s) if s == "0 B"));
    for (bytes, u, n) in [
        (1_000, 1_000, "kB"),
        (999_999, 1_000, "kB"),
        (532_517_120, 1_000_000, "MB"),
        (1_000_000_000, 1_000_000_000, "GB"),
        (u64::MAX, 1_000_000_000, "GB"),
    ] {
        match human_size(bytes) {
            HumanSize::Scaled { unit, name } => assert_eq!((unit, name.as_str()), (u, n)),
            other => panic!("{other:?}"),
        }
    }
}

#[test]
fn times_are_told_in_words() {
    let day = 86_400;
    for (secs, words) in [
        (0, "just now"),
        (59, "just now"),
        (60, "1 minutes ago"),
        (3_599, "59 minutes ago"),
        (3_600, "1 hours ago"),
        (2 * 3_600, "2 hours ago"),
        (day, "yesterday"),
        (2 * day, "2 days ago"),
        (7 * day, "1 week ago"),
        (14 * day, "2 weeks ago"),
        (30 * day, "1 month ago"),
        (60 * day, "2 months ago"),
        (364 * day, "12 months ago"),
        (365 * day, "1 year ago"),
        (730 * day, "2 years ago"),
        (3_650 * day, "10 years ago"),
    ] {
        let now: i128 = 2_000_000_000 * 1_000_000_000;
        assert_eq!(relative_time(Some(now - secs * 1_000_000_000), now), words);
    }
    assert_eq!(relative_time(Some(10), 5), "just now");
    assert_eq!(relative_time(None, 5), "unknown");
}

#[test]
fn the_table_has_aligned_columns() {
    let hour: i128 = 3_600_000_000_000;
    let images = vec![ImageSummary {
        reference: "hf.co/unsloth/Qwen3.5-0.8B-GGUF:latest".to_string(),
        digest: "sha256:b55c07040368aaaa".to_string(),
        media_type: "t".to_string(),
        size: 532_517_120,
        modified_at: Some(8 * hour),
    }];
    assert_eq!(
        list(&images, &vec!["532.5 MB".to_string()], 10 * hour),
        vec![
            "NAME                                      ID              SIZE      MODIFIED",
            "hf.co/unsloth/Qwen3.5-0.8B-GGUF:latest    b55c07040368    532.5 MB  2 hours ago",
        ]
    );
    assert!(list(&vec![], &vec![], 0).is_empty());
}

#[test]
fn short_names_leave_room_for_the_heading() {
    let images = vec![ImageSummary {
        reference: "é".to_string(),
        digest: "sha256:1".to_string(),
        media_type: "t".to_string(),
        size: 1,
        modified_at: None,
    }];
    assert_eq!(
        list(&images, &vec!["1 B".to_string()], 0),
        vec![
            "NAME    ID              SIZE      MODIFIED",
            "é       1               1 B       unknown",
        ]
    );
    let wide = list(&images, &vec!["12345678.9 GB".to_string()], 0);
    assert_eq!(wide[1], "é       1               12345678.9 GB  unknown");
}
