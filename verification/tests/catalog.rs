use lbasedb::datatype::Datatype;
use lbasedb::disk::{Action, FileId, Read};
use lbasedb::error::Error;
use lbasedb::heap::{next_power_of_two, Heap, HeapItem};
use lbasedb::list::ListKeyTrait;
use lbasedb::mgr::{ColMgr, ColRecord, FeedMgr, FeedRecord};
use lbasedb::utils::Pod;

#[test]
fn test_file_segments() {
    assert_eq!(FileId::FeedList.segments(), vec!["feed.list"]);
    assert_eq!(FileId::ColList("xyz".to_string()).segments(), vec!["xyz", "col.list"]);
    assert_eq!(
        FileId::Col("xyz".to_string(), "a.b".to_string()).segments(),
        vec!["xyz", "a.b.col"]
    );
    let file = FileId::Col("f".to_string(), "c".to_string());
    assert_eq!(file.copy(), file);
}

#[test]
fn test_next_power_of_two() {
    for size in [0u64, 1, 2, 3, 4, 5, 7, 8, 9, 1000, 1 << 40, (1 << 40) + 1, 1 << 63] {
        assert_eq!(next_power_of_two(size), Some(size.next_power_of_two()));
    }
    assert_eq!(next_power_of_two((1 << 63) + 1), None);
    assert_eq!(next_power_of_two(u64::MAX), None);
}

#[test]
fn test_heap() {
    let file = FileId::Col("f".to_string(), "heap".to_string());
    let heap = Heap::new(file.clone());
    assert_eq!(heap.size(10), Some(10));
    let (mut item, action) = heap.allocate(100, 5).unwrap();
    assert_eq!(item, HeapItem { offset: 100, size: 5, maxsize: 8 });
    assert_eq!(action, Action::Resize(file.clone(), 108));
    assert_eq!(heap.allocate(u64::MAX - 3, 5), Err(Error::IoFailure));
    assert_eq!(heap.allocate(0, u64::MAX), Err(Error::IoFailure));
    // A new size within the capacity keeps the block.
    assert_eq!(heap.realloc(&mut item, 108, 7), Ok(None));
    assert_eq!(item, HeapItem { offset: 100, size: 7, maxsize: 8 });
    // A larger size takes a new block at the end of the file.
    assert_eq!(heap.realloc(&mut item, 108, 9), Ok(Some(Action::Resize(file.clone(), 124))));
    assert_eq!(item, HeapItem { offset: 108, size: 9, maxsize: 16 });
    assert_eq!(heap.update(&item, vec![1; 16]), Ok(Action::Write(file.clone(), 108, vec![1; 16])));
    assert_eq!(heap.update(&item, vec![1; 17]), Err(Error::UnexpectedEof));
    assert_eq!(heap.get(&item), Ok(Read { file, offset: 108, len: 9 }));
}

#[test]
fn test_records_of_managers() {
    let rec = FeedRecord::new("xyz");
    assert_eq!(rec.key(), "xyz");
    assert_eq!(rec.encode().len(), 256);
    assert_eq!(FeedRecord::decode(&rec.encode()), Some(rec));
    let rec = ColRecord::new("c", Datatype::Bytes(3));
    assert_eq!(rec.key(), "c");
    assert_eq!(rec.encode().len(), 272);
    assert_eq!(ColRecord::decode(&rec.encode()), Some(rec));
    // A name that is cut inside a character has no key.
    let long = format!("{}é", "a".repeat(255));
    assert!(!FeedRecord::new(&long).has_key());
}

#[test]
fn test_col_mgr() {
    let mut mgr = ColMgr::new("xyz", &[]).unwrap();
    assert_eq!(mgr.path(), "xyz");
    let list = FileId::ColList("xyz".to_string());
    let a = ColRecord::new("a", Datatype::Int64);
    assert_eq!(mgr.add("a", Datatype::Int64), Ok(Action::Write(list.clone(), 0, a.encode())));
    assert_eq!(mgr.add("a", Datatype::Int32), Err(Error::AlreadyExists));
    mgr.add("b", Datatype::Int32).unwrap();
    assert!(mgr.contains("a"));
    assert!(!mgr.contains("c"));
    let c = ColRecord::new("c", Datatype::Int64);
    assert_eq!(
        mgr.rename("a", "c"),
        Ok(vec![
            Action::Write(list.clone(), 0, c.encode()),
            Action::Rename(
                FileId::Col("xyz".to_string(), "a".to_string()),
                FileId::Col("xyz".to_string(), "c".to_string()),
            ),
        ])
    );
    assert_eq!(mgr.rename("a", "d"), Err(Error::NotFound));
    assert_eq!(mgr.rename("b", "c"), Err(Error::AlreadyExists));
    assert_eq!(mgr.remove("c"), Ok(vec![
        Action::Write(list.clone(), 0, ColRecord::new("b", Datatype::Int32).encode()),
        Action::Resize(list, 272),
    ]));
    assert_eq!(mgr.remove("c"), Err(Error::NotFound));
    assert_eq!(mgr.list(), vec![ColRecord::new("b", Datatype::Int32)]);
    assert_eq!(ColMgr::new("xyz", &[1, 2, 3]).err(), Some(Error::InvalidData));
}

#[test]
fn test_feed_mgr() {
    let mut mgr = FeedMgr::new("./db", &[], &vec![]).unwrap();
    assert_eq!(mgr.path(), "./db");
    let plan = mgr.add("f1", &[]).unwrap();
    assert_eq!(plan[0], Action::CreateDir("f1".to_string()));
    assert_eq!(plan[1], Action::Write(FileId::FeedList, 0, FeedRecord::new("f1").encode()));
    mgr.add("f2", &ColRecord::new("c", Datatype::Int64).encode()).unwrap();
    assert_eq!(mgr.add("f2", &[]), Err(Error::AlreadyExists));
    assert_eq!(mgr.add("f3", &[0; 5]), Err(Error::InvalidData));
    assert!(mgr.contains("f1"));
    assert!(mgr.col_mgr("f2").unwrap().contains("c"));
    assert!(mgr.col_mgr("f9").is_none());
    assert_eq!(mgr.size("f1"), Ok(0));
    assert_eq!(mgr.size("f9"), Err(Error::NotFound));
    let plan = mgr.rename("f1", "g1").unwrap();
    assert_eq!(plan[1], Action::RenameDir("f1".to_string(), "g1".to_string()));
    assert_eq!(mgr.col_mgr("g1").unwrap().path(), "g1");
    assert_eq!(mgr.rename("f1", "g2"), Err(Error::NotFound));
    assert_eq!(mgr.rename("g1", "f2"), Err(Error::AlreadyExists));
    let plan = mgr.remove("g1").unwrap();
    assert_eq!(plan[0], Action::RemoveDir("g1".to_string()));
    assert_eq!(mgr.list(), vec![FeedRecord::new("f2")]);
    assert!(mgr.col_mgr("f2").unwrap().contains("c"));
    assert_eq!(mgr.remove("g1"), Err(Error::NotFound));
    // The managers read back what was stored.
    let feeds = FeedRecord::new("f2").encode();
    let cols = vec![ColRecord::new("c", Datatype::Int64).encode()];
    let again = FeedMgr::new("./db", &feeds, &cols).unwrap();
    assert_eq!(again.list(), mgr.list());
    assert_eq!(FeedMgr::new("./db", &feeds, &vec![]).err(), Some(Error::InvalidData));
}
