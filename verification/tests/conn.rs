use std::collections::HashMap;

use lbasedb::conn::Conn;
use lbasedb::dataset::{get_dataset_size, Dataset};
use lbasedb::datatype::{Datatype, Dataunit};
use lbasedb::disk::{Action, FileId, Read};
use lbasedb::error::Error;
use lbasedb::items::{ColItem, FeedItem};
use lbasedb::list::List;

/// A directory in the memory: it carries plans out as a driver does.
struct Disk {
    files: HashMap<FileId, Vec<u8>>,
}

fn feed_of(file: &FileId) -> Option<&String> {
    match file {
        FileId::FeedList => None,
        FileId::ColList(feed) => Some(feed),
        FileId::Col(feed, _) => Some(feed),
    }
}

fn in_dir(file: &FileId, feed: &str) -> FileId {
    match file {
        FileId::FeedList => FileId::FeedList,
        FileId::ColList(_) => FileId::ColList(feed.to_string()),
        FileId::Col(_, col) => FileId::Col(feed.to_string(), col.clone()),
    }
}

impl Disk {
    fn new() -> Disk {
        Disk { files: HashMap::new() }
    }

    fn content(&self, file: &FileId) -> Vec<u8> {
        self.files.get(file).cloned().unwrap_or_default()
    }

    fn step(&mut self, action: &Action) {
        match action {
            Action::CreateDir(_) => {}
            Action::RemoveDir(feed) => {
                self.files.retain(|f, _| feed_of(f) != Some(feed));
            }
            Action::RenameDir(from, to) => {
                let mut moved = HashMap::new();
                for (f, bytes) in self.files.drain() {
                    if feed_of(&f) == Some(from) {
                        moved.insert(in_dir(&f, to), bytes);
                    } else if feed_of(&f) != Some(to) {
                        moved.insert(f, bytes);
                    }
                }
                self.files = moved;
            }
            Action::Create(file) => {
                self.files.entry(file.clone()).or_default();
            }
            Action::Remove(file) => {
                self.files.remove(file);
            }
            Action::Rename(from, to) => {
                if let Some(bytes) = self.files.remove(from) {
                    self.files.insert(to.clone(), bytes);
                }
            }
            Action::Resize(file, len) => {
                self.files.entry(file.clone()).or_default().resize(*len as usize, 0);
            }
            Action::Write(file, offset, data) => {
                let bytes = self.files.entry(file.clone()).or_default();
                let end = *offset as usize + data.len();
                if bytes.len() < end {
                    bytes.resize(end, 0);
                }
                bytes[*offset as usize..end].copy_from_slice(data);
            }
        }
    }

    fn run(&mut self, plan: &[Action]) {
        for action in plan {
            self.step(action);
        }
    }

    fn read(&self, read: &Read) -> Result<Vec<u8>, Error> {
        let bytes = self.content(&read.file);
        let start = read.offset as usize;
        if start + read.len > bytes.len() {
            return Err(Error::UnexpectedEof);
        }
        Ok(bytes[start..start + read.len].to_vec())
    }

    fn open(&mut self, path: &str) -> Conn {
        let feed_bytes = self.content(&FileId::FeedList);
        let feeds = List::<FeedItem, String>::new(FileId::FeedList, &feed_bytes).unwrap();
        let mut col_bytes = Vec::new();
        for feed in feeds.list() {
            col_bytes.push(self.content(&FileId::ColList(feed.get_name())));
        }
        let (conn, plan) = Conn::new(path, &feed_bytes, &col_bytes).unwrap();
        self.run(&plan);
        conn
    }

    fn get(&self, conn: &Conn, feed: &str, ix: usize, size: usize, cols: &[&str])
        -> Result<Dataset, Error> {
        let cols: Vec<String> = cols.iter().map(|c| c.to_string()).collect();
        let reads = conn.data_get(feed, ix, size, &cols)?;
        let mut blocks = Vec::new();
        for read in &reads {
            blocks.push(self.read(read)?);
        }
        conn.data_decode(feed, size, &cols, &blocks)
    }
}

fn ints(values: &[i64]) -> Vec<Dataunit> {
    values.iter().map(|v| Dataunit::I(*v)).collect()
}

fn reals(values: &[f64]) -> Vec<Dataunit> {
    values.iter().map(|v| Dataunit::F(v.to_bits())).collect()
}

fn dataset(cols: Vec<(&str, Vec<Dataunit>)>) -> Dataset {
    let mut ds = Dataset::new();
    for (name, units) in cols {
        ds.insert(name, units);
    }
    ds
}

fn units<'a>(ds: &'a Dataset, name: &str) -> &'a Vec<Dataunit> {
    ds.get(name).unwrap()
}

fn col(feed: &str, name: &str) -> FileId {
    FileId::Col(feed.to_string(), name.to_string())
}

/// A feed `xyz` with two columns and two rows.
fn pushed() -> (Disk, Conn) {
    let mut disk = Disk::new();
    let mut conn = disk.open("./db");
    let plan = conn.feed_add("xyz", &disk.content(&FileId::ColList("xyz".to_string()))).unwrap();
    disk.run(&plan);
    let plan = conn.col_add("xyz", "x", "Int64").unwrap();
    disk.run(&plan);
    let plan = conn.col_add("xyz", "y", "Float64").unwrap();
    disk.run(&plan);
    let ds = dataset(vec![("x", ints(&[2, 5])), ("y", reals(&[2.15, 5.55]))]);
    let plan = conn.data_push("xyz", &ds).unwrap();
    disk.run(&plan);
    (disk, conn)
}

/// The feed of `pushed`, renamed to `abc`, with its column `x` renamed to
/// `x1` and a column `z` of 32-bit integers.
fn renamed() -> (Disk, Conn) {
    let (mut disk, mut conn) = pushed();
    let plan = conn.col_add("xyz", "z", "Int32").unwrap();
    disk.run(&plan);
    let plan = conn.feed_rename("xyz", "abc").unwrap();
    disk.run(&plan);
    let plan = conn.col_rename("abc", "x", "x1").unwrap();
    disk.run(&plan);
    (disk, conn)
}

#[test]
fn test_create_push_read() {
    let (disk, conn) = pushed();
    assert_eq!(conn.path(), "./db");
    assert!(conn.feed_exists("xyz"));
    assert!(conn.col_exists("xyz", "x"));
    assert!(!conn.col_exists("xyz", "q"));
    assert!(!conn.col_exists("nope", "x"));
    assert_eq!(conn.size_get("xyz"), Ok(2));
    let ds = disk.get(&conn, "xyz", 0, 2, &["x", "y"]).unwrap();
    assert_eq!(ds, dataset(vec![("x", ints(&[2, 5])), ("y", reals(&[2.15, 5.55]))]));
    assert_eq!(disk.content(&col("xyz", "x")).len(), 16);
    assert_eq!(disk.content(&col("xyz", "y")).len(), 16);
    assert_eq!(disk.content(&FileId::FeedList).len(), 264);
    assert_eq!(disk.content(&FileId::ColList("xyz".to_string())).len(), 2 * 272);
    let names: Vec<String> = conn.feed_list().iter().map(|i| i.get_name()).collect();
    assert_eq!(names, vec!["xyz".to_string()]);
    let cols: Vec<String> = conn.col_list("xyz").unwrap().iter().map(|i| i.get_name()).collect();
    assert_eq!(cols, vec!["x".to_string(), "y".to_string()]);
}

#[test]
fn test_reopen_reads_the_same() {
    let (mut disk, conn) = pushed();
    let again = disk.open("./db");
    assert_eq!(again.feed_list(), conn.feed_list());
    assert_eq!(again.col_list("xyz"), conn.col_list("xyz"));
    assert_eq!(again.size_get("xyz"), Ok(2));
    let ds = disk.get(&again, "xyz", 1, 1, &["y", "x"]).unwrap();
    assert_eq!(ds, dataset(vec![("y", reals(&[5.55])), ("x", ints(&[5]))]));
}

#[test]
fn test_column_add_after_rows_exist() {
    let (mut disk, mut conn) = pushed();
    let plan = conn.col_add("xyz", "z", "Int32").unwrap();
    assert_eq!(plan.len(), 3);
    assert_eq!(plan[1], Action::Create(col("xyz", "z")));
    assert_eq!(plan[2], Action::Resize(col("xyz", "z"), 8));
    disk.run(&plan);
    assert_eq!(conn.size_get("xyz"), Ok(2));
    let ds = disk.get(&conn, "xyz", 0, 2, &["z"]).unwrap();
    assert_eq!(units(&ds, "z"), &ints(&[0, 0]));
    assert_eq!(disk.content(&col("xyz", "z")).len(), 8);
}

#[test]
fn test_rename_preserves_data() {
    let (disk, conn) = renamed();
    assert!(conn.feed_exists("abc"));
    assert!(!conn.feed_exists("xyz"));
    assert_eq!(conn.size_get("abc"), Ok(2));
    let ds = disk.get(&conn, "abc", 0, 2, &["x1"]).unwrap();
    assert_eq!(units(&ds, "x1"), &ints(&[2, 5]));
    assert!(!disk.files.contains_key(&col("xyz", "x")));
    assert!(!disk.files.contains_key(&col("abc", "x")));
    assert!(!disk.files.contains_key(&FileId::ColList("xyz".to_string())));
    assert!(disk.files.contains_key(&col("abc", "x1")));
    assert_eq!(conn.data_get("abc", 0, 2, &vec!["x".to_string()]), Err(Error::NotFound));
    assert_eq!(conn.data_get("xyz", 0, 2, &vec!["x1".to_string()]), Err(Error::NotFound));
}

#[test]
fn test_patch_vs_save() {
    let (mut disk, conn) = renamed();
    let plan = conn.data_save("abc", 0, &dataset(vec![("y", reals(&[9.0, 9.0]))])).unwrap();
    assert_eq!(plan.len(), 3);
    disk.run(&plan);
    let ds = disk.get(&conn, "abc", 0, 2, &["x1", "y", "z"]).unwrap();
    assert_eq!(units(&ds, "x1"), &ints(&[0, 0]));
    assert_eq!(units(&ds, "y"), &reals(&[9.0, 9.0]));
    assert_eq!(units(&ds, "z"), &ints(&[0, 0]));

    let (mut disk, conn) = renamed();
    let plan = conn.data_patch("abc", 0, &dataset(vec![("y", reals(&[1.0, 1.0]))])).unwrap();
    assert_eq!(plan, vec![Action::Write(col("abc", "y"), 0, [1.0f64.to_le_bytes(); 2].concat())]);
    disk.run(&plan);
    let ds = disk.get(&conn, "abc", 0, 2, &["x1", "y"]).unwrap();
    assert_eq!(units(&ds, "x1"), &ints(&[2, 5]));
    assert_eq!(units(&ds, "y"), &reals(&[1.0, 1.0]));
}

#[test]
fn test_save_twice_is_save_once() {
    let (mut disk, conn) = renamed();
    let ds = dataset(vec![("y", reals(&[9.0])), ("z", ints(&[7]))]);
    let plan = conn.data_save("abc", 1, &ds).unwrap();
    disk.run(&plan);
    let once = disk.files.clone();
    let plan = conn.data_save("abc", 1, &ds).unwrap();
    disk.run(&plan);
    assert_eq!(disk.files, once);
}

#[test]
fn test_ragged_dataset_rejected() {
    let (_, mut conn) = renamed();
    let ds = dataset(vec![("x1", ints(&[1])), ("y", reals(&[1.0, 2.0]))]);
    assert_eq!(get_dataset_size(&ds), Err(Error::InvalidData));
    assert_eq!(conn.data_push("abc", &ds), Err(Error::InvalidData));
    assert_eq!(conn.data_patch("abc", 0, &ds), Err(Error::InvalidData));
    assert_eq!(conn.data_save("abc", 0, &ds), Err(Error::InvalidData));
    assert_eq!(conn.size_get("abc"), Ok(2));
}

#[test]
fn test_dataset_size() {
    assert_eq!(get_dataset_size(&Dataset::new()), Ok(0));
    assert_eq!(get_dataset_size(&dataset(vec![("a", ints(&[1, 2, 3]))])), Ok(3));
    assert_eq!(get_dataset_size(&dataset(vec![("a", ints(&[])), ("b", ints(&[]))])), Ok(0));
    let mut ds = dataset(vec![("a", ints(&[1])), ("b", ints(&[2]))]);
    assert_eq!(ds.len(), 2);
    ds.insert("a", ints(&[5]));
    assert_eq!(ds.len(), 2);
    assert_eq!(ds.get("a"), Some(&ints(&[5])));
    assert_eq!(ds.get("c"), None);
    assert_eq!(ds.position("b"), Some(1));
}

#[test]
fn test_column_file_sizes() {
    // Each column file holds the rows of the feed, whatever was done.
    let (mut disk, mut conn) = renamed();
    let ds = dataset(vec![("x1", ints(&[1, 2, 3])), ("z", ints(&[4, 5, 6]))]);
    let plan = conn.data_push("abc", &ds).unwrap();
    disk.run(&plan);
    let (old, plan) = conn.size_set("abc", 4).unwrap();
    assert_eq!(old, 5);
    disk.run(&plan);
    let plan = conn.col_add("abc", "b", "Bytes[3]").unwrap();
    disk.run(&plan);
    let size = conn.size_get("abc").unwrap();
    assert_eq!(size, 4);
    for item in conn.col_list("abc").unwrap() {
        let file = col("abc", &item.get_name());
        assert_eq!(disk.content(&file).len(), size * item.datatype.size());
    }
    let ds = disk.get(&conn, "abc", 0, 4, &["x1", "y", "z", "b"]).unwrap();
    assert_eq!(units(&ds, "x1"), &ints(&[2, 5, 1, 2]));
    assert_eq!(units(&ds, "y"), &reals(&[2.15, 5.55, 0.0, 0.0]));
    assert_eq!(units(&ds, "z"), &ints(&[0, 0, 4, 5]));
    assert_eq!(units(&ds, "b")[0], Dataunit::S("AAAA".to_string()));
}

#[test]
fn test_feed_errors() {
    let (_, mut conn) = pushed();
    assert_eq!(conn.feed_add("xyz", &[]), Err(Error::AlreadyExists));
    assert_eq!(conn.feed_add("1x", &[]), Err(Error::InvalidInput));
    assert_eq!(conn.feed_add("ok", &[1, 2, 3]), Err(Error::InvalidData));
    assert_eq!(conn.feed_remove("nope"), Err(Error::NotFound));
    assert_eq!(conn.feed_rename("nope", "a"), Err(Error::NotFound));
    assert_eq!(conn.feed_rename("xyz", "xyz"), Err(Error::AlreadyExists));
    assert_eq!(conn.feed_rename("xyz", "a-b"), Err(Error::InvalidInput));
    assert_eq!(conn.col_list("nope"), Err(Error::NotFound));
    assert_eq!(conn.size_get("nope"), Err(Error::NotFound));
    assert_eq!(conn.size_set("nope", 1), Err(Error::NotFound));
    assert_eq!(conn.size_set("xyz", usize::MAX), Err(Error::IoFailure));
    assert_eq!(conn.feed_list().len(), 1);
    assert_eq!(conn.size_get("xyz"), Ok(2));
}

#[test]
fn test_col_errors() {
    let (_, mut conn) = pushed();
    assert_eq!(conn.col_add("nope", "a", "Int64"), Err(Error::NotFound));
    assert_eq!(conn.col_add("xyz", "x", "Int64"), Err(Error::AlreadyExists));
    assert_eq!(conn.col_add("xyz", "a", "Int65"), Err(Error::InvalidInput));
    assert_eq!(conn.col_add("xyz", "a b", "Int64"), Err(Error::InvalidInput));
    assert_eq!(conn.col_rename("nope", "x", "a"), Err(Error::NotFound));
    assert_eq!(conn.col_rename("xyz", "q", "a"), Err(Error::NotFound));
    assert_eq!(conn.col_rename("xyz", "x", "y"), Err(Error::AlreadyExists));
    assert_eq!(conn.col_rename("xyz", "x", "."), Err(Error::InvalidInput));
    assert_eq!(conn.col_remove("nope", "x"), Err(Error::NotFound));
    assert_eq!(conn.col_remove("xyz", "q"), Err(Error::NotFound));
    assert_eq!(conn.col_list("xyz").unwrap().len(), 2);
}

#[test]
fn test_data_errors() {
    let (disk, mut conn) = pushed();
    let ds = dataset(vec![("x", reals(&[1.0]))]);
    assert_eq!(conn.data_patch("xyz", 0, &ds), Err(Error::InvalidData));
    assert_eq!(conn.data_push("xyz", &ds), Err(Error::InvalidData));
    let ds = dataset(vec![("q", ints(&[1]))]);
    assert_eq!(conn.data_patch("xyz", 0, &ds), Err(Error::NotFound));
    assert_eq!(conn.data_patch("nope", 0, &ds), Err(Error::NotFound));
    assert_eq!(conn.data_save("nope", 0, &ds), Err(Error::NotFound));
    assert_eq!(conn.data_push("nope", &ds), Err(Error::NotFound));
    // A dataset without rows plans nothing, whatever the feed.
    assert_eq!(conn.data_push("nope", &Dataset::new()), Ok(vec![]));
    assert_eq!(conn.data_patch("nope", 0, &dataset(vec![("q", vec![])])), Ok(vec![]));
    let ds = dataset(vec![("x", ints(&[1]))]);
    assert_eq!(conn.data_patch("xyz", usize::MAX, &ds), Err(Error::IoFailure));
    assert_eq!(conn.size_get("xyz"), Ok(2));
    // A read past the end of the file is the driver's error.
    assert_eq!(disk.get(&conn, "xyz", 1, 2, &["x"]), Err(Error::UnexpectedEof));
    assert_eq!(disk.get(&conn, "nope", 0, 1, &["x"]), Err(Error::NotFound));
    let cols = vec!["x".to_string()];
    assert_eq!(conn.data_decode("xyz", 2, &cols, &vec![]), Err(Error::InvalidInput));
    assert_eq!(conn.data_decode("xyz", 2, &cols, &vec![vec![0; 8]]), Err(Error::UnexpectedEof));
    let unknown = vec!["q".to_string()];
    assert_eq!(conn.data_decode("xyz", 1, &unknown, &vec![vec![]]), Err(Error::NotFound));
}

#[test]
fn test_raw_access() {
    let (mut disk, conn) = pushed();
    let read = conn.raw_get("xyz", "x", 1, 1).unwrap();
    assert_eq!(read, Read { file: col("xyz", "x"), offset: 8, len: 8 });
    assert_eq!(disk.read(&read), Ok(vec![5, 0, 0, 0, 0, 0, 0, 0]));
    let action = conn.raw_set("xyz", "x", 0, vec![7, 0, 0, 0, 0, 0, 0, 0]).unwrap();
    disk.step(&action);
    let ds = disk.get(&conn, "xyz", 0, 2, &["x"]).unwrap();
    assert_eq!(units(&ds, "x"), &ints(&[7, 5]));
    assert_eq!(conn.raw_set("xyz", "x", 0, vec![7, 0, 0]), Err(Error::InvalidData));
    assert_eq!(conn.raw_set("xyz", "q", 0, vec![]), Err(Error::NotFound));
    assert_eq!(conn.raw_get("nope", "x", 0, 1), Err(Error::NotFound));
    assert_eq!(conn.raw_get("xyz", "x", usize::MAX, 1), Err(Error::IoFailure));
}

#[test]
fn test_feed_remove_swaps_the_last() {
    let (mut disk, mut conn) = pushed();
    for name in ["b", "c"] {
        let plan = conn.feed_add(name, &[]).unwrap();
        disk.run(&plan);
        let plan = conn.col_add(name, "v", "Int32").unwrap();
        disk.run(&plan);
    }
    let plan = conn.feed_remove("xyz").unwrap();
    assert_eq!(plan.len(), 3);
    assert_eq!(plan[2], Action::RemoveDir("xyz".to_string()));
    disk.run(&plan);
    let names: Vec<String> = conn.feed_list().iter().map(|i| i.get_name()).collect();
    assert_eq!(names, vec!["c".to_string(), "b".to_string()]);
    assert!(conn.col_exists("c", "v"));
    assert!(!disk.files.contains_key(&col("xyz", "x")));
    let again = disk.open("./db");
    assert_eq!(again.feed_list(), conn.feed_list());
    assert_eq!(again.col_list("b"), conn.col_list("b"));
    let plan = conn.col_remove("b", "v").unwrap();
    assert_eq!(
        plan,
        vec![
            Action::Resize(FileId::ColList("b".to_string()), 0),
            Action::Remove(col("b", "v")),
        ]
    );
}

#[test]
fn test_long_name_is_cut() {
    let (_, mut conn) = pushed();
    let long = "a".repeat(300);
    conn.feed_add(&long, &[]).unwrap();
    assert!(!conn.feed_exists(&long));
    assert!(conn.feed_exists(&"a".repeat(256)));
    assert_eq!(conn.feed_add(&long, &[]), Err(Error::AlreadyExists));
    let item = FeedItem::new(&long).unwrap();
    assert_eq!(item.get_name(), "a".repeat(256));
}

#[test]
fn test_items() {
    let mut feed = FeedItem::new("qwe.rty").unwrap();
    assert_eq!(feed.get_name(), "qwe.rty");
    assert_eq!(feed.size, 0);
    assert_eq!(feed.rename("x-y"), Err(Error::InvalidInput));
    assert_eq!(feed.get_name(), "qwe.rty");
    assert_eq!(feed.rename("xy"), Ok(()));
    assert_eq!(feed.get_name(), "xy");
    assert_eq!(FeedItem::new("").err(), Some(Error::InvalidInput));
    let mut col = ColItem::new("c1", "Bytes[12]").unwrap();
    assert_eq!(col.get_name(), "c1");
    assert_eq!(col.get_datatype(), "Bytes[12]");
    assert_eq!(col.datatype, Datatype::Bytes(12));
    assert_eq!(col.rename("c2"), Ok(()));
    assert_eq!(col.get_name(), "c2");
    assert_eq!(col.rename("2c"), Err(Error::InvalidInput));
    assert_eq!(ColItem::new("c1", "Bytes").err(), Some(Error::InvalidInput));
    assert_eq!(ColItem::new("c 1", "Int64").err(), Some(Error::InvalidInput));
}
