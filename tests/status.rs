use cntr::status::ProcStatus;
use cntr::types::ErrorKind;

const SAMPLE: &str = "Name:\tsh\nUmask:\t0022\nState:\tS (sleeping)\nUid:\t0\t0\t0\t0\nGid:\t10\t11\t12\t13\nGroups:\t1 2 3 \nCapEff:\t00000000a80425fb\nNSpid:\t4242\t1\n";

#[test]
fn status_entries_are_read() {
    let st = ProcStatus::parse(&SAMPLE.as_bytes().to_vec()).unwrap();
    assert_eq!(st.value(&b"Name".to_vec()).unwrap(), &b"sh".to_vec());
    assert_eq!(st.value(&b"State".to_vec()).unwrap(), &b"S (sleeping)".to_vec());
    assert_eq!(st.value(&b"CapEff".to_vec()).unwrap(), &b"00000000a80425fb".to_vec());
    assert!(st.value(&b"Missing".to_vec()).is_none());
}

#[test]
fn status_ids_are_read() {
    let st = ProcStatus::parse(&SAMPLE.as_bytes().to_vec()).unwrap();
    assert_eq!(st.ids(&b"Uid".to_vec()).unwrap(), vec![0, 0, 0, 0]);
    assert_eq!(st.ids(&b"Gid".to_vec()).unwrap(), vec![10, 11, 12, 13]);
    assert_eq!(st.ids(&b"Groups".to_vec()).unwrap(), vec![1, 2, 3]);
    assert_eq!(st.ids(&b"NSpid".to_vec()).unwrap(), vec![4242, 1]);
    let e = st.ids(&b"State".to_vec()).unwrap_err();
    assert_eq!(e.kind, ErrorKind::StatusParse);
    assert_eq!(e.description(), "status entry does not hold numbers");
    let e = st.ids(&b"Seccomp".to_vec()).unwrap_err();
    assert_eq!(e.description(), "status entry is missing");
}

#[test]
fn empty_groups_give_no_ids() {
    let st = ProcStatus::parse(&b"Groups:\t\nUid: 5".to_vec()).unwrap();
    assert_eq!(st.ids(&b"Groups".to_vec()).unwrap(), Vec::<u32>::new());
    assert_eq!(st.ids(&b"Uid".to_vec()).unwrap(), vec![5]);
}

#[test]
fn first_of_repeated_keys_wins() {
    let st = ProcStatus::parse(&b"A: 1\nA: 2\n".to_vec()).unwrap();
    assert_eq!(st.ids(&b"A".to_vec()).unwrap(), vec![1]);
}

#[test]
fn lines_without_colon_are_refused() {
    let e = ProcStatus::parse(&b"Name: sh\nbroken\n".to_vec()).err().unwrap();
    assert_eq!(e.kind, ErrorKind::StatusParse);
    assert_eq!(e.description(), "malformed status line");
    assert!(ProcStatus::parse(&Vec::new()).is_ok());
}
