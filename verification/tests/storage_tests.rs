use bnotes::{MemoryStorage, Storage};

#[test]
fn test_memory_storage_write_read() {
    let mut storage = MemoryStorage::new();
    storage.write("test.md", "Hello, world!").unwrap();

    let content = storage.read_to_string("test.md").unwrap();
    assert_eq!(content, "Hello, world!");
}

#[test]
fn test_memory_storage_exists() {
    let mut storage = MemoryStorage::new();
    assert!(!storage.path_exists("test.md"));

    storage.write("test.md", "content").unwrap();
    assert!(storage.path_exists("test.md"));
}

#[test]
fn test_memory_storage_read_dir() {
    let mut storage = MemoryStorage::new();
    storage.write("a.md", "a").unwrap();
    storage.write("b.md", "b").unwrap();
    storage.write("dir/c.md", "c").unwrap();

    let entries = storage.read_dir("").unwrap();
    assert_eq!(entries.len(), 3);
    assert!(entries.contains(&"a.md".to_string()));
    assert!(entries.contains(&"b.md".to_string()));
    assert!(entries.contains(&"dir/c.md".to_string()));
}
