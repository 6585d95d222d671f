use deet::hangman::{GuessOutcome, HangmanGame, NUM_INCORRECT_GUESSES};
use deet::linked_list::LinkedList;
use deet::process_info::{parse_fd_names, OpenFile, Process};
use deet::reorder::reorder_by_index;
use deet::wc::count_words_chars;

#[test]
fn test_linked_list_ops() {
    let mut list: LinkedList<u32> = LinkedList::new();
    assert!(list.is_empty());
    assert_eq!(list.get_size(), 0);
    for i in 1..12 {
        list.push_front(i);
    }
    assert_eq!(list.get_size(), 11);
    assert!(!list.is_empty());
    assert_eq!(list.pop_front(), Some(11));
    assert_eq!(list.get_size(), 10);

    let mut it = list.iter();
    assert_eq!(it.next(), Some(10));
    assert_eq!(it.next(), Some(9));
    // Iterating does not consume the list.
    assert_eq!(list.get_size(), 10);

    let mut empty: LinkedList<String> = LinkedList::new();
    assert_eq!(empty.pop_front(), None);
}

#[test]
fn test_hangman_win() {
    let mut game = HangmanGame::new(vec!['a', 'b', 'a']);
    assert_eq!(game.chances, NUM_INCORRECT_GUESSES);
    assert_eq!(game.guess('a'), GuessOutcome::Hit);
    assert_eq!(game.revealed, vec!['a', '-', 'a']);
    assert_eq!(game.chances, NUM_INCORRECT_GUESSES);
    assert_eq!(game.guess('z'), GuessOutcome::Miss);
    assert_eq!(game.chances, NUM_INCORRECT_GUESSES - 1);
    assert_eq!(game.guess('b'), GuessOutcome::Won);
    assert_eq!(game.revealed, vec!['a', 'b', 'a']);
    assert!(!game.is_lost());
}

#[test]
fn test_hangman_dash_guess_is_a_miss() {
    // The secret never holds a dash, so guessing one is an ordinary
    // miss and costs a chance.
    let mut game = HangmanGame::new(vec!['o', 'k']);
    assert_eq!(game.guess('-'), GuessOutcome::Miss);
    assert_eq!(game.chances, NUM_INCORRECT_GUESSES - 1);
    assert_eq!(game.revealed, vec!['-', '-']);
}

#[test]
fn test_hangman_lose() {
    let mut game = HangmanGame::new(vec!['x']);
    for wrong in ['a', 'b', 'c', 'd', 'e'] {
        assert_eq!(game.guess(wrong), GuessOutcome::Miss);
    }
    assert!(game.is_lost());
    assert_eq!(game.chances, 0);
    assert_eq!(game.revealed, vec!['-']);
}

#[test]
fn test_reorder_by_index() {
    let pairs: Vec<(i32, usize)> = vec![(10, 2), (20, 0), (30, 1)];
    assert_eq!(reorder_by_index(&pairs, 3, 0), vec![20, 30, 10]);
    // A missing index keeps the default; a repeated one takes the last.
    let pairs: Vec<(i32, usize)> = vec![(5, 1), (6, 1)];
    assert_eq!(reorder_by_index(&pairs, 3, -1), vec![-1, 6, -1]);
    let none: Vec<(i32, usize)> = vec![];
    assert_eq!(reorder_by_index(&none, 2, 9), vec![9, 9]);
}

#[test]
fn test_process_record() {
    let p = Process::new(12, 1, "init".to_string());
    assert_eq!(p.pid, 12);
    assert_eq!(p.ppid, 1);
    assert_eq!(p.command, "init");
}

#[test]
fn test_list_open_files_pairs_in_order() {
    let p = Process::new(1, 0, "x".to_string());
    let fds = vec![0, 2, 7];
    let files = vec![
        Some(OpenFile { name: "a".to_string(), access_mode: "read".to_string(), cursor: 0 }),
        Some(OpenFile { name: "b".to_string(), access_mode: "write".to_string(), cursor: 5 }),
        Some(OpenFile { name: "c".to_string(), access_mode: "read/write".to_string(), cursor: 9 }),
    ];
    let r = p.list_open_files(&fds, files).unwrap();
    assert_eq!(r.len(), 3);
    assert_eq!((r[0].0, r[0].1.name.as_str(), r[0].1.cursor), (0, "a", 0));
    assert_eq!((r[1].0, r[1].1.access_mode.as_str()), (2, "write"));
    assert_eq!(r[2].0, 7);

    // One unreadable record makes the whole listing unavailable.
    let files = vec![
        Some(OpenFile { name: "a".to_string(), access_mode: "read".to_string(), cursor: 0 }),
        None,
        Some(OpenFile { name: "c".to_string(), access_mode: "read".to_string(), cursor: 1 }),
    ];
    assert!(p.list_open_files(&vec![0, 1, 2], files).is_none());
}

#[test]
fn test_parse_fd_names() {
    let names = vec!["0".to_string(), "1".to_string(), "25".to_string()];
    assert_eq!(parse_fd_names(&names), Some(vec![0, 1, 25]));
    let bad = vec!["0".to_string(), "socket".to_string()];
    assert_eq!(parse_fd_names(&bad), None);
    let empty: Vec<String> = vec![];
    assert_eq!(parse_fd_names(&empty), Some(vec![]));
}

#[test]
fn test_count_words_chars() {
    // Two lines; only the first is scanned, and of it every character
    // but the last, plus one for the line break.
    let lines: Vec<Vec<char>> = vec![
        "it's a test!".chars().collect(),
        "end".chars().collect(),
    ];
    let (lines_n, words_n, chars_n) = count_words_chars(&lines);
    assert_eq!(lines_n, 2);
    // Scanned: "it's a test" -> the words it's, a, test.
    assert_eq!(words_n, 3);
    // Eleven scanned characters plus the line break.
    assert_eq!(chars_n, 12);
}

#[test]
fn test_count_words_single_line_file() {
    let lines: Vec<Vec<char>> = vec!["never scanned".chars().collect()];
    assert_eq!(count_words_chars(&lines), (1, 0, 0));
}
