use sync_primitives::rcu::{RCUData, WriteAccess, WriteOp, WriteReply};

#[test]
fn test_single_reader() {
    let mut rcu = RCUData::new(vec![1, 2, 3]);
    let reader = rcu.read();
    assert_eq!(rcu.reader_count(), 1);
    assert_eq!(*reader, vec![1, 2, 3]);
}

#[test]
fn test_single_writer() {
    let mut rcu_data = RCUData::new(vec![3, 4, 5]);

    let modify_func = |data: &mut Vec<u32>| {
        data.push(6);
    };

    rcu_data.write(modify_func);

    let reader = rcu_data.read();

    assert_eq!(*reader, vec![3, 4, 5, 6])
}

#[test]
fn test_reader_count_cleanup() {
    let mut rcu = RCUData::new(33);

    {
        let reader = rcu.read();
        assert_eq!(rcu.reader_count(), 1);
        reader.leave(&mut rcu);
    }
    assert_eq!(rcu.reader_count(), 0);
}

#[test]
fn test_new_readers_see_new_data() {
    let mut rcu = RCUData::new(33);
    let reader = rcu.read();
    assert_eq!(*reader, 33);
    reader.leave(&mut rcu);
    rcu.write(|data| {
        *data = 42;
    });
    let reader2 = rcu.read();
    assert_eq!(*reader2, 42);
}

#[test]
fn test_mutex_serializes_writers() {
    let mut rcu = RCUData::new(0);
    for _ in 0..4 {
        rcu.write(|data| {
            *data = *data + 1;
        });
    }
    let reader = rcu.read();
    assert_eq!(*reader, 4);
}

#[test]
fn test_multiple_reader() {
    let mut rcu_data = RCUData::new(123);
    let mut readers = vec![];
    for _ in 0..5 {
        readers.push(rcu_data.read());
    }
    assert_eq!(rcu_data.reader_count(), 5);
    for reader in readers {
        assert_eq!(*reader, 123);
        reader.leave(&mut rcu_data);
    }
    assert_eq!(rcu_data.reader_count(), 0);
}

#[test]
fn test_writer_waits_for_readers() {
    let mut data = RCUData::new("abc".to_string());
    let reader = data.read();
    assert_eq!(*reader, "abc".to_string());

    // A writer that has changed its copy does not go on while the reader is counted.
    let op = WriteOp::AwaitReaders;
    assert_eq!(op.access(), WriteAccess::LoadReaders);
    let op = op.resume(WriteReply::Readers { count: data.reader_count() });
    assert_eq!(op, WriteOp::Yield);
    assert_eq!(op.access(), WriteAccess::YieldNow);
    let op = op.resume(WriteReply::Ack);
    reader.leave(&mut data);
    assert_eq!(data.reader_count(), 0);
    let op = op.resume(WriteReply::Readers { count: data.reader_count() });
    assert_eq!(op.access(), WriteAccess::Install);

    data.write(|data_updated: &mut String| *data_updated = "def".to_string());
    let reader = data.read();
    assert_eq!(data.reader_count(), 1);
    assert_eq!(*reader, "def".to_string());
}

#[test]
fn test_concurrent_read_write() {
    let mut rcu = RCUData::new(33);
    for round in 0..5 {
        let readers = vec![rcu.read(), rcu.read(), rcu.read()];
        assert_eq!(rcu.reader_count(), 3);
        for reader in readers {
            assert!(*reader >= 33);
            reader.leave(&mut rcu);
        }
        if round < 2 {
            rcu.write(|data| {
                *data = *data + 2;
            });
        }
    }
    let reader = rcu.read();
    assert!(*reader >= 33);
    assert_eq!(*reader, 37);
}

#[test]
fn a_writer_waits_for_its_turn() {
    let op = WriteOp::LockWriters;
    assert_eq!(op.resume(WriteReply::Pending), WriteOp::LockWriters);
    let op = op.resume(WriteReply::Ack);
    assert_eq!(op.access(), WriteAccess::Copy);
    let op = op.resume(WriteReply::Ack);
    assert_eq!(op.access(), WriteAccess::Update);
    let op = WriteOp::Install.resume(WriteReply::Ack);
    assert_eq!(op.access(), WriteAccess::UnlockWriters);
    assert_eq!(op.resume(WriteReply::Ack), WriteOp::Done);
}

#[test]
fn readers_keep_what_they_have_seen() {
    let mut rcu = RCUData::new(1);
    let reader = rcu.read();
    assert_eq!(*reader, 1);
    // The count is taken down early, as if another handle had left.
    let other = rcu.read();
    other.leave(&mut rcu);
    assert_eq!(rcu.reader_count(), 1);
    assert_eq!(*reader, 1);
    reader.leave(&mut rcu);
    rcu.safer_write(|v| *v = 7);
    assert_eq!(*rcu.read(), 7);
}
