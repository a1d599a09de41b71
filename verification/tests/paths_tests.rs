use replaytrim::listing::{recent_videos, FolderEntry, MAX_LISTED};
use replaytrim::paths::{
    choose_record_dir, listing_dir, lists_recordings, newest_clip_folder, path_allowed,
    path_allowed_given, recording_root, recording_root_given, same_dir,
};
use replaytrim::state::ClipEntry;

fn clip(path: &str) -> ClipEntry {
    ClipEntry { path: path.to_string(), kind: "grab".to_string(), saved_at_epoch: 0, duration_bits: 0 }
}

fn file(name: &str, modified: u64, ext: Option<&str>) -> FolderEntry {
    FolderEntry {
        modified_epoch: modified,
        size: 10,
        name: name.to_string(),
        path: format!("/rec/{}", name),
        extension: ext.map(|e| e.to_string()),
    }
}

#[test]
fn same_dir_ignores_case_and_separators() {
    assert!(same_dir("C:\\Videos\\OBS", "c:/videos/obs"));
    assert!(same_dir("C:\\Videos\\OBS\\", "C:\\Videos\\OBS"));
    assert!(same_dir("a/b//", "A\\B"));
    assert!(!same_dir("C:\\Videos\\OBS", "C:\\Videos\\OBS2"));
    assert!(same_dir("ÄRGER", "ärger"));
    assert!(same_dir("C:/Users/Me/Videos/", "c:\\users\\me\\videos"));
}

#[test]
fn allowed_files() {
    let clips = vec![clip("/lib/a.mp4")];
    assert!(path_allowed(&clips, None, None, "/lib/a.mp4"));
    assert!(path_allowed(&clips, Some("/x/overlay.mov"), None, "/x/overlay.mov"));
    assert!(!path_allowed(&clips, None, None, "/rec/b.mp4"));
    assert!(path_allowed(&clips, None, Some("/rec"), "/rec/b.mp4"));
    assert!(path_allowed(&clips, None, Some("/rec/"), "/rec/b.mp4"));
    assert!(path_allowed(&clips, None, Some("/rec"), "/rec/ReplayTrim/c.mp4"));
    assert!(!path_allowed(&clips, None, Some("/rec"), "/rec/b.mkv"));
    assert!(!path_allowed(&clips, None, Some("/rec"), "/rec/sub/b.mp4"));
    assert!(!path_allowed(&clips, None, Some("/rec"), "/other/b.mp4"));
    assert!(path_allowed(&clips, None, Some("rec"), "rec/x.mp4"));
    assert!(path_allowed(&clips, None, Some("REC"), "rec/x.mp4"));
    assert!(!path_allowed(&clips, None, Some("rec"), "rec/x.mov"));
    assert!(!path_allowed(&clips, None, Some("Replays"), "rec/x.mp4"));
}

#[test]
fn allowed_files_given_path_facts() {
    let clips = vec![clip("/lib/a.mp4")];
    assert!(path_allowed_given(&clips, None, None, "/lib/a.mp4", None, None));
    assert!(path_allowed_given(&clips, None, Some(("D:\\Rec", "D:\\Rec\\ReplayTrim")), "d:/rec/x.mp4", Some("mp4"), Some("d:/rec")));
    assert!(path_allowed_given(&clips, None, Some(("D:\\Rec", "D:\\Rec\\ReplayTrim")), "q", Some("mp4"), Some("D:/Rec/ReplayTrim/")));
    assert!(!path_allowed_given(&clips, None, Some(("D:\\Rec", "D:\\Rec\\ReplayTrim")), "q", Some("MP4"), Some("D:\\Rec")));
    assert!(!path_allowed_given(&clips, None, Some(("D:\\Rec", "D:\\Rec\\ReplayTrim")), "q", Some("mp4"), None));
}

#[test]
fn record_folder_resolution() {
    assert_eq!(choose_record_dir(Some("/obs".to_string()), Some("/clips".to_string())), Some("/obs".to_string()));
    assert_eq!(choose_record_dir(Some(String::new()), Some("/clips".to_string())), Some("/clips".to_string()));
    assert_eq!(choose_record_dir(None, None), None);
    assert_eq!(newest_clip_folder(&vec![clip("/a/x.mp4"), clip("/b/y.mp4")]), Some("/b".to_string()));
    assert_eq!(newest_clip_folder(&vec![]), None);
    assert_eq!(newest_clip_folder(&vec![clip("a/x.mp4"), clip("y.mp4")]), Some(String::new()));
    assert_eq!(newest_clip_folder(&vec![clip("clips/y.mp4")]), Some("clips".to_string()));
    assert_eq!(recording_root("rec/ReplayTrim".to_string()), "rec");
    assert_eq!(recording_root("rec/Other".to_string()), "rec/Other");
    assert_eq!(recording_root("/ReplayTrim".to_string()), "/");
    assert_eq!(recording_root("/a/./b/ReplayTrim".to_string()), "/a/./b");
    assert_eq!(newest_clip_folder(&vec![clip("/x.mp4")]), Some("/".to_string()));
    assert_eq!(newest_clip_folder(&vec![clip("../v/x.mp4")]), Some("../v".to_string()));
    assert_eq!(recording_root("/rec/ReplayTrim".to_string()), "/rec");
    assert_eq!(recording_root("/rec".to_string()), "/rec");
    assert_eq!(recording_root_given("ReplayTrim".to_string(), Some("ReplayTrim"), None), "ReplayTrim");
    assert_eq!(recording_root_given("X".to_string(), Some("ReplayTrim"), Some("P".to_string())), "P");
    assert!(lists_recordings(Some("recordings")));
    assert!(!lists_recordings(Some("clips")));
    assert!(!lists_recordings(None));
    assert_eq!(listing_dir("/rec", Some("recordings")), "/rec");
    assert_eq!(listing_dir("/rec", Some("clips")), "/rec/ReplayTrim");
    assert_eq!(listing_dir("/rec", None), "/rec/ReplayTrim");
    assert_eq!(listing_dir("rec/", None), "rec/ReplayTrim");
    assert_eq!(listing_dir("", None), "ReplayTrim");
}

#[test]
fn listing_is_newest_first_and_stable() {
    let entries = vec![
        file("a.mp4", 5, Some("mp4")),
        file("b.mkv", 9, Some("mkv")),
        file("c.mp4", 7, Some("mp4")),
        file("d.mp4", 5, Some("mp4")),
        file("e", 8, None),
        file("f.mp4", 7, Some("mp4")),
    ];
    let names: Vec<String> = recent_videos(&entries).into_iter().map(|f| f.name).collect();
    assert_eq!(names, vec!["c.mp4", "f.mp4", "a.mp4", "d.mp4"]);
}

#[test]
fn listing_is_cut_to_thirty() {
    let entries: Vec<FolderEntry> = (0..45u64).map(|i| file(&format!("{}.mp4", i), i % 7, Some("mp4"))).collect();
    let listed = recent_videos(&entries);
    assert_eq!(listed.len(), MAX_LISTED);
    for w in listed.windows(2) {
        assert!(w[0].modified_epoch >= w[1].modified_epoch);
    }
    assert_eq!(listed[0].name, "6.mp4");
    assert_eq!(listed[1].name, "13.mp4");
    assert!(recent_videos(&vec![]).is_empty());
}
