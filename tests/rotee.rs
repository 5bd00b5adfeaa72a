use rotee::config::{Config, ConfigError, DEFAULT_BUFFER_SIZE, DEFAULT_FILE_SIZE, DEFAULT_NUM_FILES};
use rotee::naming::outfile_path;
use rotee::rotation::{rotation_plan, Rename};
use rotee::splitter::{Splitter, Step};

fn config(file_size: usize, num_files: usize, buffer_size: usize, no_echo: bool) -> Config {
    Config {
        file_prefix: String::from("rotee."),
        file_size,
        num_files,
        no_echo,
        buffer_size,
    }
}

/// Runs the input through a splitter in reads of `buffer_size` bytes, carrying out the steps on
/// files held in memory. Returns the files by index and the mirror stream.
fn run(input: &[u8], config: &Config) -> (Vec<Option<Vec<u8>>>, Vec<u8>) {
    assert!(config.validate().is_ok());
    let mut files: Vec<Option<Vec<u8>>> = vec![None; config.num_files];
    files[0] = Some(Vec::new());
    let mut mirror = Vec::new();
    let mut splitter = Splitter::new(config);
    for chunk in input.chunks(config.buffer_size) {
        for step in splitter.on_chunk(chunk) {
            match step {
                Step::Write { start, end } => {
                    files[0].as_mut().unwrap().extend_from_slice(&chunk[start..end])
                }
                Step::Echo { start, end } => mirror.extend_from_slice(&chunk[start..end]),
                Step::Rotate => {
                    for Rename { from, to } in rotation_plan(config.num_files) {
                        if let Some(f) = files[from].take() {
                            files[to] = Some(f);
                        }
                    }
                    files[0] = Some(Vec::new());
                }
            }
        }
        let present = files.iter().filter(|f| f.is_some()).count();
        assert!(present <= config.num_files);
    }
    (files, mirror)
}

fn bytes(n: usize) -> Vec<u8> {
    (0..n).map(|i| (i % 251) as u8).collect()
}

#[test]
fn twenty_five_bytes_over_three_files() {
    let input = bytes(25);
    let (files, mirror) = run(&input, &config(10, 3, 100, false));
    assert_eq!(files[0].as_deref(), Some(&input[20..25]));
    assert_eq!(files[1].as_deref(), Some(&input[10..20]));
    assert_eq!(files[2].as_deref(), Some(&input[0..10]));
    assert_eq!(mirror, input);
}

#[test]
fn exact_multiple_leaves_empty_current_file() {
    let input = bytes(20);
    let (files, _) = run(&input, &config(10, 3, 7, false));
    assert_eq!(files[0].as_deref(), Some(&[][..]));
    assert_eq!(files[1].as_deref(), Some(&input[10..20]));
    assert_eq!(files[2].as_deref(), Some(&input[0..10]));
}

#[test]
fn exact_multiple_with_full_window_evicts_oldest() {
    let input = bytes(30);
    let (files, _) = run(&input, &config(10, 3, 4, false));
    assert_eq!(files[0].as_deref(), Some(&[][..]));
    assert_eq!(files[1].as_deref(), Some(&input[20..30]));
    assert_eq!(files[2].as_deref(), Some(&input[10..20]));
}

#[test]
fn files_read_back_give_input_for_any_buffer_size() {
    let input = bytes(1000);
    for buffer_size in [1, 3, 4, 7, 64, 999, 1000, 5000] {
        let (files, mirror) = run(&input, &config(4, 300, buffer_size, false));
        let mut joined = Vec::new();
        for f in files.iter().rev().flatten() {
            joined.extend_from_slice(f);
        }
        assert_eq!(joined, input);
        assert_eq!(mirror, input);
    }
}

#[test]
fn retained_files_are_a_suffix_of_input() {
    let input = bytes(103);
    let (files, _) = run(&input, &config(10, 4, 16, false));
    let mut joined = Vec::new();
    for f in files.iter().rev().flatten() {
        joined.extend_from_slice(f);
    }
    assert_eq!(joined, &input[70..103]);
    assert_eq!(files.iter().filter(|f| f.is_some()).count(), 4);
}

#[test]
fn full_files_have_limit_size() {
    let input = bytes(57);
    let (files, _) = run(&input, &config(5, 20, 3, false));
    assert_eq!(files[0].as_ref().unwrap().len(), 2);
    for f in files[1..].iter().flatten() {
        assert_eq!(f.len(), 5);
    }
    assert_eq!(files.iter().filter(|f| f.is_some()).count(), 12);
}

#[test]
fn single_file_window_keeps_only_current() {
    let input = bytes(23);
    let (files, mirror) = run(&input, &config(10, 1, 100, false));
    assert_eq!(files.len(), 1);
    assert_eq!(files[0].as_deref(), Some(&input[20..23]));
    assert_eq!(mirror, input);
}

#[test]
fn one_byte_files_rotate_on_every_byte() {
    let input = bytes(6);
    let (files, _) = run(&input, &config(1, 3, 100, true));
    assert_eq!(files[0].as_deref(), Some(&[][..]));
    assert_eq!(files[1].as_deref(), Some(&input[5..6]));
    assert_eq!(files[2].as_deref(), Some(&input[4..5]));
}

#[test]
fn no_echo_leaves_mirror_empty() {
    let input = bytes(25);
    let (files, mirror) = run(&input, &config(10, 3, 100, true));
    assert!(mirror.is_empty());
    assert_eq!(files[0].as_deref(), Some(&input[20..25]));
}

#[test]
fn empty_input_leaves_empty_current_file() {
    let (files, mirror) = run(&[], &config(10, 3, 100, false));
    assert_eq!(files[0].as_deref(), Some(&[][..]));
    assert!(files[1].is_none());
    assert!(files[2].is_none());
    assert!(mirror.is_empty());
}

#[test]
fn chunk_spanning_several_boundaries() {
    let c = config(3, 5, 100, false);
    let mut splitter = Splitter::new(&c);
    let steps = splitter.on_chunk(&bytes(8));
    assert_eq!(
        steps,
        vec![
            Step::Write { start: 0, end: 3 },
            Step::Echo { start: 0, end: 3 },
            Step::Rotate,
            Step::Write { start: 3, end: 6 },
            Step::Echo { start: 3, end: 6 },
            Step::Rotate,
            Step::Write { start: 6, end: 8 },
            Step::Echo { start: 6, end: 8 },
        ]
    );
    assert_eq!(splitter.current_size(), 2);
    let steps = splitter.on_chunk(&bytes(1));
    assert_eq!(
        steps,
        vec![Step::Write { start: 0, end: 1 }, Step::Echo { start: 0, end: 1 }, Step::Rotate]
    );
    assert_eq!(splitter.current_size(), 0);
}

#[test]
fn empty_chunk_gives_no_steps() {
    let mut splitter = Splitter::new(&config(3, 5, 100, false));
    assert!(splitter.on_chunk(&[]).is_empty());
    assert_eq!(splitter.current_size(), 0);
}

#[test]
fn rotation_plan_goes_from_oldest_down() {
    assert!(rotation_plan(1).is_empty());
    assert_eq!(rotation_plan(2), vec![Rename { from: 0, to: 1 }]);
    assert_eq!(
        rotation_plan(4),
        vec![Rename { from: 2, to: 3 }, Rename { from: 1, to: 2 }, Rename { from: 0, to: 1 }]
    );
}

#[test]
fn outfile_paths() {
    assert_eq!(outfile_path("rotee.", 0), "rotee.0");
    assert_eq!(outfile_path("rotee.", 7), "rotee.7");
    assert_eq!(outfile_path("log-", 10), "log-10");
    assert_eq!(outfile_path("", 1203), "1203");
    assert_eq!(outfile_path("x", usize::MAX), format!("x{}", usize::MAX));
}

#[test]
fn zero_file_size_is_refused() {
    assert_eq!(config(0, 3, 100, false).validate(), Err(ConfigError::ZeroFileSize));
}

#[test]
fn zero_num_files_is_refused() {
    assert_eq!(config(10, 0, 100, false).validate(), Err(ConfigError::ZeroNumFiles));
}

#[test]
fn zero_buffer_size_is_refused_first() {
    assert_eq!(config(0, 0, 0, false).validate(), Err(ConfigError::ZeroBufferSize));
    assert_eq!(config(0, 0, 1, false).validate(), Err(ConfigError::ZeroNumFiles));
}

#[test]
fn error_messages() {
    assert_eq!(ConfigError::ZeroBufferSize.message(), "buffer size (-b) must be non-zero");
    assert_eq!(ConfigError::ZeroNumFiles.message(), "number of files (-n) must be non-zero");
    assert_eq!(ConfigError::ZeroFileSize.message(), "file size (-s) must be non-zero");
}

#[test]
fn default_config() {
    let c = Config::default();
    assert_eq!(c.file_prefix, "rotee.");
    assert_eq!(c.file_size, 8 * 1024 * 1024);
    assert_eq!(c.num_files, 8);
    assert!(!c.no_echo);
    assert_eq!(c.buffer_size, 1024 * 1024);
    assert_eq!(DEFAULT_FILE_SIZE, c.file_size);
    assert_eq!(DEFAULT_NUM_FILES, c.num_files);
    assert_eq!(DEFAULT_BUFFER_SIZE, c.buffer_size);
    assert_eq!(c.validate(), Ok(()));
}
