use lbasedb::col::Col;
use lbasedb::disk::{Action, FileId, Read};
use lbasedb::error::Error;
use lbasedb::items::{ColItem, FeedItem};
use lbasedb::list::{List, ListKeyTrait};
use lbasedb::seq::{checked_product, zero_block, SeqFile};
use lbasedb::utils::{to_bytes, to_bytes_many, Pod};

fn file() -> FileId {
    FileId::ColList("f".to_string())
}

fn item(name: &str) -> ColItem {
    ColItem::new(name, "Int64").unwrap()
}

fn key(name: &str) -> String {
    name.to_string()
}

/// Carry an action on the one file out.
fn step(bytes: &mut Vec<u8>, action: &Action) {
    match action {
        Action::Resize(_, len) => bytes.resize(*len as usize, 0),
        Action::Write(_, offset, data) => {
            let end = *offset as usize + data.len();
            if bytes.len() < end {
                bytes.resize(end, 0);
            }
            bytes[*offset as usize..end].copy_from_slice(data);
        }
        other => panic!("no action of a list: {:?}", other),
    }
}

fn abc() -> (List<ColItem, String>, Vec<u8>) {
    let mut bytes = Vec::new();
    let mut list = List::<ColItem, String>::new(file(), &bytes).unwrap();
    for name in ["a", "b", "c"] {
        let action = list.add(&item(name)).unwrap();
        step(&mut bytes, &action);
    }
    (list, bytes)
}

fn names(list: &List<ColItem, String>) -> Vec<String> {
    list.list().iter().map(|i| i.get_name()).collect()
}

#[test]
fn test_list_remove_swaps_tail() {
    let (mut list, mut bytes) = abc();
    assert_eq!(names(&list), vec!["a", "b", "c"]);
    let plan = list.remove(&key("a")).unwrap();
    assert_eq!(
        plan,
        vec![
            Action::Write(file(), 0, to_bytes(&item("c"))),
            Action::Resize(file(), 2 * 272),
        ]
    );
    for action in &plan {
        step(&mut bytes, action);
    }
    assert_eq!(names(&list), vec!["c", "b"]);
    assert_eq!(list.index(&key("b")), Some(1));
    assert_eq!(list.index(&key("c")), Some(0));
    assert_eq!(list.index(&key("a")), None);
    assert_eq!(list.size(), 2);
    // The file holds what the list holds.
    assert_eq!(bytes, to_bytes_many(&[item("c"), item("b")]));
    let again = List::<ColItem, String>::new(file(), &bytes).unwrap();
    assert_eq!(again.list(), list.list());
}

#[test]
fn test_list_remove_tail_only_truncates() {
    let (mut list, _) = abc();
    let plan = list.remove(&key("c")).unwrap();
    assert_eq!(plan, vec![Action::Resize(file(), 2 * 272)]);
    assert_eq!(names(&list), vec!["a", "b"]);
    assert_eq!(list.remove(&key("c")), Err(Error::NotFound));
}

#[test]
fn test_list_map_and_detail() {
    let (list, bytes) = abc();
    assert!(list.contains(&key("b")));
    assert!(!list.contains(&key("d")));
    let map = list.map();
    let keys: Vec<String> = map.iter().map(|p| p.0.clone()).collect();
    assert_eq!(keys, vec!["a", "b", "c"]);
    for (k, rec) in &map {
        let ix = list.index(k).unwrap();
        assert_eq!(list.detail(k), Ok(*rec));
        // The record of a key is the block of the file at its position.
        let block = &bytes[ix * 272..(ix + 1) * 272];
        assert_eq!(Col::<ColItem>::decode(block), Ok(*rec));
    }
    assert_eq!(list.detail(&key("d")), Err(Error::NotFound));
}

#[test]
fn test_list_add_and_modify() {
    let (mut list, mut bytes) = abc();
    assert_eq!(list.add(&item("b")), Err(Error::AlreadyExists));
    assert_eq!(list.modify(&key("d"), &item("e")), Err(Error::NotFound));
    assert_eq!(list.modify(&key("a"), &item("b")), Err(Error::AlreadyExists));
    // The same key: the record is overwritten in place.
    let same = ColItem::new("b", "Float32").unwrap();
    let action = list.modify(&key("b"), &same).unwrap();
    assert_eq!(action, Action::Write(file(), 272, to_bytes(&same)));
    step(&mut bytes, &action);
    // Another key: the record is overwritten and found under the new key.
    let action = list.modify(&key("a"), &item("z")).unwrap();
    assert_eq!(action, Action::Write(file(), 0, to_bytes(&item("z"))));
    step(&mut bytes, &action);
    assert_eq!(names(&list), vec!["z", "b", "c"]);
    assert_eq!(list.index(&key("z")), Some(0));
    assert_eq!(list.index(&key("a")), None);
    assert_eq!(list.detail(&key("b")), Ok(same));
    assert_eq!(bytes, to_bytes_many(&list.list()));
}

#[test]
fn test_list_refuses_a_corrupt_file() {
    let (_, bytes) = abc();
    let new = |b: &[u8]| List::<ColItem, String>::new(file(), b).map(|l| l.size());
    assert_eq!(new(&bytes), Ok(3));
    assert_eq!(new(&[]), Ok(0));
    // Not a number of whole records.
    assert_eq!(new(&bytes[..300]), Err(Error::InvalidData));
    // The same key twice.
    let twice = to_bytes_many(&[item("a"), item("a")]);
    assert_eq!(new(&twice), Err(Error::InvalidData));
    // No datatype of that kind.
    let mut bad = bytes.clone();
    bad[256] = 99;
    assert_eq!(new(&bad), Err(Error::InvalidData));
    // A name that is no text.
    let mut bad = bytes.clone();
    bad[0] = 0xff;
    assert_eq!(new(&bad), Err(Error::InvalidData));
}

#[test]
fn test_records() {
    let mut feed = FeedItem::new("xyz").unwrap();
    feed.size = 0x0102;
    let block = feed.encode();
    assert_eq!(block.len(), 264);
    assert_eq!(FeedItem::width(), 264);
    assert_eq!(&block[..4], &[120, 121, 122, 0]);
    assert_eq!(&block[256..], &[2, 1, 0, 0, 0, 0, 0, 0]);
    assert_eq!(FeedItem::decode(&block), Some(feed));
    assert!(feed.has_key());
    assert_eq!(feed.key(), "xyz");
    let col = ColItem::new("c", "String[7]").unwrap();
    let block = col.encode();
    assert_eq!(block.len(), 272);
    assert_eq!(&block[256..], &[5, 0, 0, 0, 0, 0, 0, 0, 7, 0, 0, 0, 0, 0, 0, 0]);
    assert_eq!(ColItem::decode(&block), Some(col));
    let mut junk = col;
    junk.name[0] = 0xc0;
    assert!(!junk.has_key());
}

#[test]
fn test_seq_file() {
    let seq = SeqFile::new(FileId::FeedList, 4);
    assert_eq!(seq.block_size(), 4);
    assert_eq!(seq.open(), Action::Create(FileId::FeedList));
    assert_eq!(seq.size(12), Ok(3));
    assert_eq!(seq.size(0), Ok(0));
    assert_eq!(seq.size(13), Err(Error::InvalidData));
    assert_eq!(SeqFile::new(FileId::FeedList, 0).size(0), Err(Error::InvalidData));
    assert_eq!(seq.resize(5), Ok(Action::Resize(FileId::FeedList, 20)));
    assert_eq!(seq.resize(usize::MAX), Err(Error::IoFailure));
    assert_eq!(seq.push(8, vec![1, 2, 3, 4]), Ok((2, Action::Write(FileId::FeedList, 8, vec![1, 2,
        3, 4]))));
    assert_eq!(seq.get(3, 8), Ok(Read { file: FileId::FeedList, offset: 12, len: 8 }));
    assert_eq!(seq.update(1, vec![9; 4]), Ok(Action::Write(FileId::FeedList, 4, vec![9; 4])));
    assert_eq!(seq.update(usize::MAX, vec![]), Err(Error::IoFailure));
    assert_eq!(seq.push_empty(4, 2), Ok((1, Action::Write(FileId::FeedList, 4, vec![0; 8]))));
    assert_eq!(zero_block(3), vec![0, 0, 0]);
    assert_eq!(checked_product(3, 5), Some(15));
    assert_eq!(checked_product(usize::MAX, usize::MAX), None);
}

#[test]
fn test_col() {
    let col = Col::<i32>::new(FileId::FeedList);
    assert_eq!(Col::<i32>::block_size(), 4);
    assert_eq!(col.size(8), Ok(2));
    assert_eq!(col.resize(3), Ok(Action::Resize(FileId::FeedList, 12)));
    assert_eq!(col.push(8, &7), Ok((2, Action::Write(FileId::FeedList, 8, vec![7, 0, 0, 0]))));
    assert_eq!(
        col.push_many(0, &[1, 2]),
        Ok((0, Action::Write(FileId::FeedList, 0, vec![1, 0, 0, 0, 2, 0, 0, 0])))
    );
    assert_eq!(col.get(2), Ok(Read { file: FileId::FeedList, offset: 8, len: 4 }));
    assert_eq!(col.get_many(1, 2), Ok(Some(Read { file: FileId::FeedList, offset: 4, len: 8 })));
    assert_eq!(col.get_many(1, 0), Ok(None));
    assert_eq!(col.get_all(12), Ok(Some(Read { file: FileId::FeedList, offset: 0, len: 12 })));
    assert_eq!(col.get_all(0), Ok(None));
    assert_eq!(col.get_all(5), Err(Error::InvalidData));
    assert_eq!(col.update(1, &-1), Ok(Action::Write(FileId::FeedList, 4, vec![255; 4])));
    assert_eq!(col.update_many(1, &[1]), Ok(Action::Write(FileId::FeedList, 4, vec![1, 0, 0, 0])));
    assert_eq!(Col::<i32>::decode(&[5, 0, 0, 0]), Ok(5));
    assert_eq!(Col::<i32>::decode(&[5, 0, 0]), Err(Error::InvalidData));
    assert_eq!(Col::<i32>::decode_many(&[5, 0, 0, 0, 6, 0, 0, 0]), Ok(vec![5, 6]));
    assert_eq!(Col::<i32>::decode_many(&[5, 0, 0, 0, 6]), Err(Error::InvalidData));
}
