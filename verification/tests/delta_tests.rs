use gust::delta::{write_size_encoding, DeltaOp, Optype};
use gust::diff::{coalesce_events, settle_events, DeltaDiff, DiffEvent};
use gust::errors::GitError;
use gust::object::{Object, ObjectType};
use gust::patch::apply_delta;

fn blob(data: &[u8]) -> Object {
    Object::new(ObjectType::Blob, data.to_vec(), gust::hash::Hash::zero())
}

fn round_trip(old: &[u8], new: &[u8]) -> Vec<u8> {
    let diff = DeltaDiff::new(blob(old), blob(new)).unwrap();
    let delta = diff.get_delta_metadata();
    assert_eq!(apply_delta(old, &delta), Ok(new.to_vec()));
    delta
}

fn pattern(len: usize, seed: u32) -> Vec<u8> {
    let mut state = seed;
    let mut out = Vec::with_capacity(len);
    for _ in 0..len {
        state = state.wrapping_mul(1664525).wrapping_add(1013904223);
        out.push((state >> 24) as u8);
    }
    out
}

#[test]
fn hello_world_script_is_copy_insert_copy() {
    let diff = DeltaDiff::new(blob(b"hello world"), blob(b"hello there world")).unwrap();
    let ops: Vec<DeltaOp> = diff.ops().clone();
    assert_eq!(
        ops,
        vec![
            DeltaOp { ins: Optype::COPY, begin: 0, len: 6 },
            DeltaOp { ins: Optype::DATA, begin: 6, len: 6 },
            DeltaOp { ins: Optype::COPY, begin: 6, len: 5 },
        ]
    );
    let delta = diff.get_delta_metadata();
    assert_eq!(
        delta,
        vec![11, 17, 0x90, 6, 6, b't', b'h', b'e', b'r', b'e', b' ', 0x91, 6, 5]
    );
    assert_eq!(apply_delta(b"hello world", &delta), Ok(b"hello there world".to_vec()));
    assert_eq!(diff.similarity(), (11, 17));
}

#[test]
fn round_trip_of_unrelated_and_related_buffers() {
    round_trip(b"", b"");
    round_trip(b"", b"only new");
    round_trip(b"only old", b"");
    round_trip(b"same", b"same");
    round_trip(b"the quick brown fox jumps over", b"the quick red fox leaps over it");
    round_trip(b"abcabcabcabc", b"cbacbacba");
    let a = pattern(3000, 7);
    let b = pattern(2500, 99);
    round_trip(&a, &b);
    let mut c = a.clone();
    c.splice(1000..1000, pattern(400, 3));
    c.truncate(3100);
    round_trip(&a, &c);
}

#[test]
fn identical_buffers_are_one_copy() {
    let delta = round_trip(b"same", b"same");
    assert_eq!(delta, vec![4, 4, 0x90, 4]);
}

#[test]
fn long_insert_is_split_at_127_bytes() {
    let new = pattern(300, 5);
    let diff = DeltaDiff::new(blob(b""), blob(&new)).unwrap();
    assert_eq!(
        diff.ops().clone(),
        vec![
            DeltaOp { ins: Optype::DATA, begin: 0, len: 127 },
            DeltaOp { ins: Optype::DATA, begin: 127, len: 127 },
            DeltaOp { ins: Optype::DATA, begin: 254, len: 46 },
        ]
    );
    let delta = diff.get_delta_metadata();
    assert_eq!(&delta[..3], &[0, 0xac, 0x02]);
    assert_eq!(delta[3], 127);
    assert_eq!(delta.len(), 3 + 3 + 300);
    assert_eq!(apply_delta(b"", &delta), Ok(new));
    assert_eq!(diff.similarity(), (0, 300));
}

#[test]
fn copy_writes_only_the_bytes_that_are_not_zero() {
    // 0x0100 bytes copied from offset 0x020000
    let base = pattern(0x020100, 11);
    let new = base[0x020000..0x020100].to_vec();
    let events = vec![DiffEvent::Equal { base_at: 0x020000, target_at: 0, len: 0x100 }];
    let diff = DeltaDiff::from_events(blob(&base), blob(&new), &events).unwrap();
    assert_eq!(
        diff.ops().clone(),
        vec![DeltaOp { ins: Optype::COPY, begin: 0x020000, len: 0x100 }]
    );
    let delta = diff.get_delta_metadata();
    // sizes 0x020100 and 0x100, opcode with offset byte 2 and length byte 1
    assert_eq!(delta, vec![0x80, 0x82, 0x08, 0x80, 0x02, 0x80 | 0x04 | 0x20, 0x02, 0x01]);
    assert_eq!(apply_delta(&base, &delta), Ok(new));
}

#[test]
fn size_encoding_has_seven_bits_to_a_byte() {
    assert_eq!(write_size_encoding(0), vec![0]);
    assert_eq!(write_size_encoding(127), vec![127]);
    assert_eq!(write_size_encoding(128), vec![0x80, 0x01]);
    assert_eq!(write_size_encoding(300), vec![0xac, 0x02]);
    assert_eq!(write_size_encoding(16384), vec![0x80, 0x80, 0x01]);
}

#[test]
fn type_mismatch_is_refused() {
    let tree = Object::new(ObjectType::Tree, b"x".to_vec(), gust::hash::Hash::zero());
    let r = DeltaDiff::new(blob(b"x"), tree);
    assert!(matches!(r, Err(GitError::TypeMismatch)));
}

#[test]
fn events_that_do_not_hold_give_the_literal_script() {
    let events = vec![DiffEvent::Equal { base_at: 0, target_at: 0, len: 3 }];
    let diff = DeltaDiff::from_events(blob(b"abc"), blob(b"abd"), &events).unwrap();
    assert_eq!(diff.ops().clone(), vec![DeltaOp { ins: Optype::DATA, begin: 0, len: 3 }]);
    let delta = diff.get_delta_metadata();
    assert_eq!(delta, vec![3, 3, 3, b'a', b'b', b'd']);
    let short = vec![DiffEvent::Insert { base_at: 0, target_at: 0, len: 2 }];
    let diff = DeltaDiff::from_events(blob(b"abc"), blob(b"abd"), &short).unwrap();
    assert_eq!(diff.ops().clone(), vec![DeltaOp { ins: Optype::DATA, begin: 0, len: 3 }]);
}

#[test]
fn neighbouring_events_become_runs() {
    let events = vec![
        DiffEvent::Equal { base_at: 0, target_at: 0, len: 2 },
        DiffEvent::Equal { base_at: 2, target_at: 2, len: 3 },
        DiffEvent::Delete { base_at: 5, len: 1, target_at: 5 },
        DiffEvent::Insert { base_at: 6, target_at: 5, len: 1 },
        DiffEvent::Insert { base_at: 6, target_at: 6, len: 0 },
        DiffEvent::Insert { base_at: 6, target_at: 6, len: 2 },
        DiffEvent::Equal { base_at: 6, target_at: 8, len: 1 },
    ];
    assert_eq!(
        coalesce_events(&events),
        vec![
            DiffEvent::Equal { base_at: 0, target_at: 0, len: 5 },
            DiffEvent::Insert { base_at: 6, target_at: 5, len: 3 },
            DiffEvent::Equal { base_at: 6, target_at: 8, len: 1 },
        ]
    );
}

#[test]
fn insertion_moves_right_over_bytes_it_leaves_behind() {
    let runs = vec![
        DiffEvent::Equal { base_at: 0, target_at: 0, len: 5 },
        DiffEvent::Insert { base_at: 5, target_at: 5, len: 6 },
        DiffEvent::Equal { base_at: 5, target_at: 11, len: 6 },
    ];
    assert_eq!(
        settle_events(&runs, b"hello world", b"hello there world"),
        vec![
            DiffEvent::Equal { base_at: 0, target_at: 0, len: 6 },
            DiffEvent::Insert { base_at: 6, target_at: 6, len: 6 },
            DiffEvent::Equal { base_at: 6, target_at: 12, len: 5 },
        ]
    );
    // nothing to move over: the events stay
    assert_eq!(settle_events(&runs[..2].to_vec(), b"hello world", b"hello there world"), runs[..2].to_vec());
}

#[test]
fn malformed_deltas_are_format_errors() {
    let base = b"hello world";
    // no header
    assert_eq!(apply_delta(base, &[]), Err(GitError::FormatError));
    // header cut short
    assert_eq!(apply_delta(base, &[0x8b]), Err(GitError::FormatError));
    // another base size
    assert_eq!(apply_delta(base, &[10, 0]), Err(GitError::FormatError));
    // reserved opcode
    assert_eq!(apply_delta(base, &[11, 1, 0]), Err(GitError::FormatError));
    // insert cut short
    assert_eq!(apply_delta(base, &[11, 2, 2, b'a']), Err(GitError::FormatError));
    // copy outside the base
    assert_eq!(apply_delta(base, &[11, 5, 0x91, 8, 5]), Err(GitError::FormatError));
    // copy operand cut short
    assert_eq!(apply_delta(base, &[11, 5, 0x91, 0]), Err(GitError::FormatError));
    // rebuilds less than the size it names
    assert_eq!(apply_delta(base, &[11, 5, 0x90, 4]), Err(GitError::FormatError));
    // rebuilds more than the size it names
    assert_eq!(apply_delta(base, &[11, 3, 0x90, 4]), Err(GitError::FormatError));
    // a size of more than ten bytes
    let long = [0x80u8; 11];
    assert_eq!(apply_delta(base, &long), Err(GitError::FormatError));
}

#[test]
fn well_formed_deltas_are_applied() {
    let base = b"hello world";
    assert_eq!(apply_delta(base, &[11, 0]), Ok(vec![]));
    assert_eq!(apply_delta(base, &[11, 5, 0x91, 6, 5]), Ok(b"world".to_vec()));
    assert_eq!(apply_delta(base, &[11, 7, 0x90, 5, 2, b'!', b'!']), Ok(b"hello!!".to_vec()));
    // offset zero is written with no offset byte
    assert_eq!(apply_delta(base, &[11, 2, 0x90, 2]), Ok(b"he".to_vec()));
}

#[test]
fn copy_without_length_bytes_stands_for_65536() {
    let base = pattern(0x1_0000 + 10, 1);
    let mut delta = write_size_encoding(base.len());
    delta.extend(write_size_encoding(0x1_0000));
    delta.extend([0x81, 10]);
    assert_eq!(apply_delta(&base, &delta), Ok(base[10..].to_vec()));
}

fn revisions() -> (Object, Object) {
    let mut old = Vec::new();
    let mut new = Vec::new();
    for i in 0..40u32 {
        old.extend(format!("line {} of the first revision\n", i).into_bytes());
        if i % 7 == 3 {
            new.extend(format!("line {} was rewritten\n", i).into_bytes());
        } else {
            new.extend(format!("line {} of the first revision\n", i).into_bytes());
        }
    }
    new.extend(b"and a last line\n");
    let m1 = Object::new(ObjectType::Blob, old, gust::hash::Hash([0x16; 20]));
    let m2 = Object::new(ObjectType::Blob, new, gust::hash::Hash([0xbe; 20]));
    (m1, m2)
}

#[test]
fn test_metadata_diff_ofs_delta() {
    let (m1, m2) = revisions();
    let diff = DeltaDiff::new(m1.clone(), m2.clone()).unwrap();
    println!("{:?}", diff.ops());
    let delta = diff.get_delta_metadata();
    assert!(delta.len() < m2.data.len());
    let mut cache = gust::cache::PackObjectCache::new();
    cache.update(std::rc::Rc::new(m1), 12);
    assert_eq!(cache.offset_delta(12, &delta), Ok(m2.data));
}

#[test]
fn test_metadata_diff_ref_delta() {
    let (m1, m2) = revisions();
    let diff = DeltaDiff::new(m1.clone(), m2.clone()).unwrap();
    println!("{:?}", diff.ops());
    let offset_head = m1.id.0.to_vec();
    assert!(offset_head.len() == 20);
    let delta = diff.get_delta_metadata();
    let mut cache = gust::cache::PackObjectCache::new();
    cache.update(std::rc::Rc::new(m1.clone()), 12);
    let rebuilt = cache.hash_delta(m1.id, &delta).unwrap();
    println!("*********************");
    println!("Hash :{}", m2.id.to_plain_str());
    assert_eq!(rebuilt, m2.data);
}

#[test]
fn long_copy_is_split_at_three_length_bytes() {
    let len = 0x100_0010usize;
    let base = pattern(len, 21);
    let events = vec![DiffEvent::Equal { base_at: 0, target_at: 0, len }];
    let diff = DeltaDiff::from_events(blob(&base), blob(&base), &events).unwrap();
    assert_eq!(
        diff.ops().clone(),
        vec![
            DeltaOp { ins: Optype::COPY, begin: 0, len: 0xff_ffff },
            DeltaOp { ins: Optype::COPY, begin: 0xff_ffff, len: 0x11 },
        ]
    );
    let delta = diff.get_delta_metadata();
    assert_eq!(
        delta,
        vec![
            0x90, 0x80, 0x80, 0x08, 0x90, 0x80, 0x80, 0x08, 0xf0, 0xff, 0xff, 0xff, 0x97, 0xff,
            0xff, 0xff, 0x11
        ]
    );
    assert_eq!(apply_delta(&base, &delta), Ok(base.clone()));
    assert_eq!(diff.similarity(), (len, len));
}

#[test]
fn related_buffers_are_mostly_copied() {
    let a = pattern(3000, 7);
    let mut c = a.clone();
    c.splice(1000..1000, pattern(400, 3));
    let diff = DeltaDiff::new(blob(&a), blob(&c)).unwrap();
    let (copied, total) = diff.similarity();
    assert_eq!(total, 3400);
    assert!(copied >= 3000 - 8, "copied {}", copied);
    let text = DeltaDiff::new(
        blob(b"the quick brown fox jumps over"),
        blob(b"the quick red fox leaps over it"),
    )
    .unwrap();
    assert!(text.similarity().0 >= 20, "copied {}", text.similarity().0);
    assert!(text.ops().iter().any(|op| op.ins == Optype::COPY));
}
