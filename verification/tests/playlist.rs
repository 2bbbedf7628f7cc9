use cyd_player::playlist::{after, name_before, Next, Playlist, MAX_FILES};
use cyd_player::video::Outcome;

fn name(text: &str) -> [u8; 11] {
    let mut bytes = [b' '; 11];
    let (base, extension) = text.split_once('.').unwrap_or((text, ""));
    bytes[..base.len()].copy_from_slice(base.as_bytes());
    bytes[8..8 + extension.len()].copy_from_slice(extension.as_bytes());
    bytes
}

#[test]
fn names_are_ordered_byte_by_byte() {
    assert!(name_before(&name("A.MJP"), &name("B.MJP")));
    assert!(!name_before(&name("B.MJP"), &name("A.MJP")));
    assert!(name_before(&name("A.MJP"), &name("A.MJP")));
    assert!(name_before(&name("A.MJP"), &name("AA.MJP")));
    assert!(name_before(&name("A10.MJP"), &name("A2.MJP")));
    assert!(name_before(&name("SAME.AAA"), &name("SAME.AAB")));
    assert!(!name_before(&[255; 11], &[0; 11]));
    let (a, b) = (name("CLIP1.YUV"), name("CLIP2.YUV"));
    assert_eq!(name_before(&a, &b), a <= b);
}

#[test]
fn files_with_the_extension_are_taken() {
    let mut list = Playlist::new(*b"MJP");
    assert!(list.offer(name("B.MJP"), false));
    assert!(!list.offer(name("DIR.MJP"), true));
    assert!(!list.offer(name("C.YUV"), false));
    assert!(!list.offer(name("C.MJ"), false));
    assert!(!list.offer(name("C"), false));
    assert!(!list.offer(name("MJP"), false));
    assert!(list.offer(name("A.MJP"), false));
    assert_eq!(list.len(), 2);
    assert_eq!(list.next(), Some(name("A.MJP")));
    assert_eq!(list.next(), Some(name("B.MJP")));
}

#[test]
fn an_extension_with_a_space_is_shorter() {
    let mut list = Playlist::new(*b"A  ");
    assert!(!list.offer(name("X.A"), false));
    assert_eq!(list.len(), 0);
    let mut list = Playlist::new(*b"AB ");
    assert!(!list.offer(name("X.AB"), false));
}

#[test]
fn no_more_than_five_files_are_taken() {
    assert_eq!(MAX_FILES, 5);
    let mut list = Playlist::new(*b"RGB");
    for (i, text) in ["F.RGB", "E.RGB", "D.RGB", "C.RGB", "B.RGB", "A.RGB", "G.RGB"]
        .iter()
        .enumerate()
    {
        assert_eq!(list.offer(name(text), false), i < 5);
    }
    assert_eq!(list.len(), 5);
    for text in ["B.RGB", "C.RGB", "D.RGB", "E.RGB", "F.RGB"] {
        assert_eq!(list.next(), Some(name(text)));
    }
}

#[test]
fn the_list_is_played_round_and_round() {
    let mut list = Playlist::new(*b"YUV");
    for text in ["TWO.YUV", "ONE.YUV", "THREE.YUV", "ONE.YUV"] {
        assert!(list.offer(name(text), false));
    }
    let order = ["ONE.YUV", "ONE.YUV", "THREE.YUV", "TWO.YUV"];
    for round in 0..3 {
        for text in order {
            assert_eq!(list.next(), Some(name(text)), "round {round}");
        }
    }
}

#[test]
fn a_new_name_starts_the_list_over() {
    let mut list = Playlist::new(*b"YUV");
    assert!(list.offer(name("B.YUV"), false));
    assert!(list.offer(name("C.YUV"), false));
    assert_eq!(list.next(), Some(name("B.YUV")));
    assert!(list.offer(name("A.YUV"), false));
    assert_eq!(list.next(), Some(name("A.YUV")));
    assert!(!list.offer(name("A.RGB"), false));
    assert_eq!(list.next(), Some(name("B.YUV")));
}

#[test]
fn an_empty_list_plays_nothing() {
    let mut list = Playlist::new(*b"YUV");
    assert_eq!(list.len(), 0);
    assert_eq!(list.next(), None);
    assert_eq!(list.next(), None);
}

#[test]
fn what_follows_a_file() {
    for outcome in [
        Outcome::EndOfStream,
        Outcome::Cancelled,
        Outcome::Abandoned,
        Outcome::ReadFailed,
    ] {
        assert_eq!(after(outcome), Next::NextFile);
    }
    assert_eq!(after(Outcome::DisplayFailed), Next::Halt);
    assert_eq!(after(Outcome::Misuse), Next::Halt);
}
