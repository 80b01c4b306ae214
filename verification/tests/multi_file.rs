use request_log_analyzer::multi_file::{MultiFile, ReadAction, ReadEvent};
use std::collections::HashMap;
use std::io;
use std::io::BufRead;
use std::io::Read;
use std::io::Write;

const SIMPLE_1: &str = "08/Apr/2016:09:57:47 +0200 [001] -> GET /content/some/page.html HTTP/1.1\n\
08/Apr/2016:09:57:47 +0200 [001] <- 200 text/html 7ms\n\
08/Apr/2016:09:58:47 +0200 [002] -> GET /content/some/other.html HTTP/1.1\n\
08/Apr/2016:09:58:48 +0200 [002] <- 200 text/html 10ms\n";

const SIMPLE_2: &str = "08/Apr/2016:10:57:47 +0200 [003] -> GET /content/some/page.html HTTP/1.1\n\
08/Apr/2016:10:57:47 +0200 [003] <- 200 text/html 17ms\n\
08/Apr/2016:10:58:47 +0200 [004] -> GET /content/some/other.html HTTP/1.1\n\
08/Apr/2016:10:58:48 +0200 [004] <- 404 text/html 20ms\n";

fn compressed(text: &str) -> Vec<u8> {
    let mut encoder = flate2::write::GzEncoder::new(Vec::new(), flate2::Compression::default());
    encoder.write_all(text.as_bytes()).unwrap();
    encoder.finish().unwrap()
}

// The files that the tests read, by their names.
fn disk() -> HashMap<String, Vec<u8>> {
    let mut files = HashMap::new();
    files.insert(String::from("src/test/simple-1.log"), SIMPLE_1.as_bytes().to_vec());
    files.insert(String::from("src/test/simple-2.log"), SIMPLE_2.as_bytes().to_vec());
    files.insert(String::from("src/test/simple-1.log.gz"), compressed(SIMPLE_1));
    files.insert(String::from("src/test/empty.log"), Vec::new());
    files
}

// Opens and reads as `MultiFile` says, from the files of `disk`.
struct Input {
    files: MultiFile,
    disk: HashMap<String, Vec<u8>>,
    current_file: Option<Box<dyn io::Read>>,
    opened: Vec<(String, bool)>,
}

impl Input {
    fn new(filenames: Vec<String>) -> Input {
        Input {
            files: MultiFile::new(filenames),
            disk: disk(),
            current_file: None,
            opened: vec![],
        }
    }

    fn open(&mut self, index: usize, compressed: bool) -> io::Result<Box<dyn io::Read>> {
        let name = self.files.filename(index).clone();
        self.opened.push((name.clone(), compressed));
        let bytes = match self.disk.get(&name) {
            Some(bytes) => bytes.clone(),
            None => return Err(io::Error::new(io::ErrorKind::NotFound, "no such file")),
        };
        if compressed {
            Ok(Box::new(flate2::read::GzDecoder::new(io::Cursor::new(bytes))))
        } else {
            Ok(Box::new(io::Cursor::new(bytes)))
        }
    }
}

impl io::Read for Input {
    fn read(&mut self, buf: &mut [u8]) -> io::Result<usize> {
        let mut failure: Option<io::Error> = None;
        let mut action = self.files.advance(ReadEvent::Begin);
        loop {
            action = match action {
                ReadAction::Open { index, compressed } => match self.open(index, compressed) {
                    Ok(file) => {
                        self.current_file = Some(file);
                        self.files.advance(ReadEvent::Opened)
                    }
                    Err(err) => {
                        failure = Some(err);
                        self.files.advance(ReadEvent::OpenFailed)
                    }
                },
                ReadAction::Read => match self.current_file.as_mut().unwrap().read(buf) {
                    Ok(read_size) => self.files.advance(ReadEvent::Got(read_size)),
                    Err(err) => {
                        failure = Some(err);
                        self.files.advance(ReadEvent::ReadFailed)
                    }
                },
                ReadAction::Return(read_size) => return Ok(read_size),
                ReadAction::Fail => return Err(failure.take().unwrap()),
            }
        }
    }
}

#[test]
fn test_read_single() {
    let filenames = vec![String::from("src/test/simple-1.log")];
    let input = Input::new(filenames);

    let reader = io::BufReader::new(input);

    let result = reader.lines().count();
    assert_eq!(result, 4);
}

#[test]
fn test_read_all() {
    let filenames = vec![
        String::from("src/test/simple-1.log"),
        String::from("src/test/simple-2.log"),
    ];
    let input = Input::new(filenames);

    let reader = io::BufReader::new(input);

    let result = reader.lines().count();
    assert_eq!(result, 8);
}

#[test]
fn test_read_non_existent() {
    let filenames = vec![String::from("src/test/non-existent.log")];
    let mut input = Input::new(filenames);
    let mut buffer = [0; 10];
    let result = input.read(&mut buffer);

    assert!(result.is_err());
}

#[test]
fn test_read_second_non_existent() {
    let filenames = vec![
        String::from("src/test/empty.log"),
        String::from("src/test/non-existent.log"),
    ];
    let mut input = Input::new(filenames);
    let mut buffer = [0; 10];
    let result = input.read(&mut buffer);

    assert!(result.is_err());
}

#[test]
fn test_read_no_files_means_eof() {
    let filenames = vec![];
    let mut input = Input::new(filenames);
    let mut buffer = [0; 10];
    let result = input.read(&mut buffer);

    assert!(result.is_ok());
    assert_eq!(result.unwrap(), 0);
}

#[test]
fn test_read_with_gzip() {
    let filenames = vec![
        String::from("src/test/simple-1.log"),
        String::from("src/test/simple-1.log.gz"),
    ];
    let input = Input::new(filenames);

    let reader = io::BufReader::new(input);

    let result = reader.lines().count();
    assert_eq!(result, 8);
}

#[test]
fn test_read_gives_the_files_one_after_the_other() {
    let filenames = vec![
        String::from("src/test/simple-2.log"),
        String::from("src/test/empty.log"),
        String::from("src/test/simple-1.log.gz"),
    ];
    let mut input = Input::new(filenames);
    let mut text = String::new();
    input.read_to_string(&mut text).unwrap();
    assert_eq!(text, format!("{}{}", SIMPLE_2, SIMPLE_1));
    assert_eq!(
        input.opened,
        vec![
            (String::from("src/test/simple-2.log"), false),
            (String::from("src/test/empty.log"), false),
            (String::from("src/test/simple-1.log.gz"), true),
        ]
    );
    // At the end of the last file the input stays at its end.
    let mut buffer = [0; 10];
    assert_eq!(input.read(&mut buffer).unwrap(), 0);
    assert_eq!(input.read(&mut buffer).unwrap(), 0);
}

#[test]
fn test_a_file_that_cannot_be_opened_is_passed_over() {
    let filenames = vec![
        String::from("src/test/non-existent.log"),
        String::from("src/test/simple-1.log"),
    ];
    let mut input = Input::new(filenames);
    let mut buffer = [0; 10];
    assert!(input.read(&mut buffer).is_err());
    // The next attempt goes on with the file after it.
    let mut text = String::new();
    input.read_to_string(&mut text).unwrap();
    assert_eq!(text, SIMPLE_1);
}

#[test]
fn test_steps_of_the_reader() {
    let mut files = MultiFile::new(vec![
        String::from("a.log"),
        String::from("b.gz"),
        String::from(".gz"),
        String::from("gz"),
        String::from("c.gz.log"),
    ]);
    assert_eq!(
        files.advance(ReadEvent::Begin),
        ReadAction::Open { index: 0, compressed: false }
    );
    assert_eq!(files.advance(ReadEvent::Opened), ReadAction::Read);
    assert_eq!(files.advance(ReadEvent::Got(10)), ReadAction::Return(10));
    assert_eq!(files.advance(ReadEvent::Begin), ReadAction::Read);
    assert_eq!(files.advance(ReadEvent::ReadFailed), ReadAction::Fail);
    assert_eq!(files.advance(ReadEvent::Begin), ReadAction::Read);
    assert_eq!(
        files.advance(ReadEvent::Got(0)),
        ReadAction::Open { index: 1, compressed: true }
    );
    assert_eq!(files.advance(ReadEvent::OpenFailed), ReadAction::Fail);
    assert_eq!(
        files.advance(ReadEvent::Begin),
        ReadAction::Open { index: 2, compressed: true }
    );
    assert_eq!(files.advance(ReadEvent::Opened), ReadAction::Read);
    assert_eq!(
        files.advance(ReadEvent::Got(0)),
        ReadAction::Open { index: 3, compressed: false }
    );
    assert_eq!(files.advance(ReadEvent::Opened), ReadAction::Read);
    assert_eq!(
        files.advance(ReadEvent::Got(0)),
        ReadAction::Open { index: 4, compressed: false }
    );
    assert_eq!(files.advance(ReadEvent::Opened), ReadAction::Read);
    assert_eq!(files.advance(ReadEvent::Got(0)), ReadAction::Return(0));
    assert_eq!(files.advance(ReadEvent::Begin), ReadAction::Return(0));
    assert_eq!(files.filename(1), "b.gz");
}
