use bnotes::{BNotes, Error, LibraryConfig, Storage};

/// A storage that lists one note and cannot read it.
struct Unreadable;

impl Storage for Unreadable {
    fn read_to_string(&self, path: &str) -> Result<String, Error> {
        Err(Error::Io {
            path: path.to_string(),
            message: "unreadable".to_string(),
        })
    }

    fn write(&mut self, path: &str, _contents: &str) -> Result<(), Error> {
        Err(Error::NoteExists(path.to_string()))
    }

    fn path_exists(&self, path: &str) -> bool {
        path == "a.md"
    }

    fn is_dir(&self, path: &str) -> bool {
        path.is_empty()
    }

    fn read_dir(&self, _path: &str) -> Result<Vec<String>, Error> {
        Ok(vec!["a.md".to_string()])
    }

    fn create_dir_all(&mut self, _path: &str) -> Result<(), Error> {
        Ok(())
    }
}

#[test]
fn a_note_that_cannot_be_read_is_left_out() {
    let bnotes = BNotes::new(LibraryConfig::default(), Unreadable);
    let notes = bnotes.list_notes(&[]).unwrap();
    assert!(notes.is_empty());
    assert!(bnotes.search("anything").unwrap().is_empty());
}

#[test]
fn an_error_of_the_storage_is_handed_on_as_one() {
    let mut bnotes = BNotes::new(LibraryConfig::default(), Unreadable);
    let err = bnotes.create_note("New note", None).unwrap_err();
    assert_eq!(
        err,
        Error::Io {
            path: "new-note.md".to_string(),
            message: "Note already exists: new-note.md".to_string(),
        }
    );
    assert_eq!(
        err.message(),
        "Failed to access new-note.md: Note already exists: new-note.md"
    );
    let exists = bnotes.create_note("a", None).unwrap_err();
    assert_eq!(exists, Error::NoteExists("a.md".to_string()));
}

#[test]
fn a_note_that_cannot_be_read_is_named_as_passed_over() {
    let bnotes = BNotes::new(LibraryConfig::default(), Unreadable);
    let (notes, skipped) = bnotes.repo.discover_with_skipped().unwrap();
    assert!(notes.is_empty());
    assert_eq!(skipped, vec!["a.md"]);
}
