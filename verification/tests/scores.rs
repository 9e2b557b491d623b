use tetris::scores::{
    line_to_slice, load_highscores_and_lines, record_game, save_highscores_and_lines,
    slice_to_string, update_vec, NUM_HIGHSCORES,
};
use tetris::session::Tetris;

#[test]
fn a_list_that_is_not_full_takes_the_value_in_ascending_order() {
    let mut list = vec![3, 1];
    assert!(update_vec(&mut list, 2));
    assert_eq!(list, vec![1, 2, 3]);
    assert!(update_vec(&mut list, 0));
    assert_eq!(list, vec![0, 1, 2, 3]);
    assert!(update_vec(&mut list, 3));
    assert_eq!(list, vec![0, 1, 2, 3, 3]);
    assert_eq!(list.len(), NUM_HIGHSCORES);
}

#[test]
fn an_empty_list_takes_any_value() {
    let mut list = Vec::new();
    assert!(update_vec(&mut list, 0));
    assert_eq!(list, vec![0]);
}

#[test]
fn a_list_that_is_not_full_is_put_in_order_as_a_whole() {
    let mut list = vec![9, 4, 7, 1];
    assert!(update_vec(&mut list, 5));
    assert_eq!(list, vec![1, 4, 5, 7, 9]);
}

#[test]
fn a_full_list_gives_up_its_lowest_number_and_stays_in_order() {
    let mut list = vec![1, 2, 3, 4, 5];
    assert!(update_vec(&mut list, 10));
    assert_eq!(list, vec![2, 3, 4, 5, 10]);
    assert!(update_vec(&mut list, 4));
    assert_eq!(list, vec![3, 4, 4, 5, 10]);
    let mut unsorted = vec![8, 9, 2, 1, 7];
    assert!(update_vec(&mut unsorted, 8));
    assert_eq!(unsorted, vec![2, 7, 8, 8, 9]);
}

#[test]
fn a_full_list_without_a_lower_number_stays() {
    let mut list = vec![5, 5, 6, 7, 8];
    assert!(!update_vec(&mut list, 5));
    assert_eq!(list, vec![5, 5, 6, 7, 8]);
    assert!(!update_vec(&mut list, 0));
    assert_eq!(list, vec![5, 5, 6, 7, 8]);
    let mut long = vec![4, 4, 4, 4, 4, 4, 1];
    assert!(!update_vec(&mut long, 1));
    assert_eq!(long, vec![4, 4, 4, 4, 4, 4, 1]);
    assert!(update_vec(&mut long, 2));
    assert_eq!(long, vec![2, 4, 4, 4, 4, 4, 4]);
}

#[test]
fn five_best_of_many_are_kept() {
    let mut list = Vec::new();
    for value in [30, 10, 50, 20, 40, 5, 60, 45, 45, 1, 100] {
        update_vec(&mut list, value);
    }
    assert_eq!(list, vec![45, 45, 50, 60, 100]);
}

#[test]
fn record_game_takes_score_and_lines_into_their_lists() {
    let mut tetris = Tetris::new();
    tetris.score = 120;
    tetris.num_lines = 7;
    let mut scores = vec![100, 200, 300, 400, 500];
    let mut lines = vec![10, 20, 30, 40, 50];
    assert_eq!(record_game(&tetris, &mut scores, &mut lines), (true, false));
    assert_eq!(scores, vec![120, 200, 300, 400, 500]);
    assert_eq!(lines, vec![10, 20, 30, 40, 50]);
    let mut few_scores = vec![500];
    let mut few_lines = Vec::new();
    assert_eq!(record_game(&tetris, &mut few_scores, &mut few_lines), (true, true));
    assert_eq!(few_scores, vec![120, 500]);
    assert_eq!(few_lines, vec![7]);
}

#[test]
fn numbers_are_written_in_decimal_with_single_spaces() {
    assert_eq!(slice_to_string(&[]), "");
    assert_eq!(slice_to_string(&[0]), "0");
    assert_eq!(slice_to_string(&[7]), "7");
    assert_eq!(slice_to_string(&[10]), "10");
    assert_eq!(slice_to_string(&[1, 20, 300]), "1 20 300");
    assert_eq!(slice_to_string(&[u32::MAX, 0, 1009]), "4294967295 0 1009");
}

#[test]
fn a_line_gives_the_numbers_between_its_spaces() {
    assert_eq!(line_to_slice("1 2 3"), vec![1, 2, 3]);
    assert_eq!(line_to_slice("42"), vec![42]);
    assert_eq!(line_to_slice(""), Vec::<u32>::new());
    assert_eq!(line_to_slice(" "), Vec::<u32>::new());
    assert_eq!(line_to_slice("1  2"), vec![1, 2]);
    assert_eq!(line_to_slice(" 5 "), vec![5]);
}

#[test]
fn pieces_that_write_no_number_are_dropped() {
    assert_eq!(line_to_slice("a 5 -3 +7 1x 007"), vec![5, 7, 7]);
    assert_eq!(line_to_slice("4294967295 4294967296 99999999999999999999"), vec![u32::MAX]);
    assert_eq!(line_to_slice("+ ++1 +-1 1+ +0"), vec![0]);
    assert_eq!(line_to_slice("1\t2 3\n 4"), vec![4]);
    assert_eq!(line_to_slice("1_000 ١٢ 12"), vec![12]);
}

#[test]
fn a_line_is_read_as_the_parser_of_the_standard_library_reads_its_pieces() {
    let line = "12 +4 -1  x 0009 4294967295 4294967296 + 3e2 0x10 ٣ 77";
    let expected: Vec<u32> = line.split(" ").filter_map(|item| item.parse::<u32>().ok()).collect();
    assert_eq!(line_to_slice(line), expected);
    assert_eq!(expected, vec![12, 4, 9, u32::MAX, 77]);
}

#[test]
fn the_two_lists_are_kept_on_two_lines() {
    assert_eq!(save_highscores_and_lines(&[1, 2], &[3]), "1 2\n3\n");
    assert_eq!(save_highscores_and_lines(&[], &[]), "\n\n");
    assert_eq!(save_highscores_and_lines(&[1000, 17], &[26, 300, 4]), "1000 17\n26 300 4\n");
}

#[test]
fn a_text_of_two_lines_gives_the_two_lists() {
    assert_eq!(load_highscores_and_lines("1 2\n3 4\n"), Some((vec![1, 2], vec![3, 4])));
    assert_eq!(load_highscores_and_lines("1 2\n3 4"), Some((vec![1, 2], vec![3, 4])));
    assert_eq!(load_highscores_and_lines("\n5"), Some((vec![], vec![5])));
    assert_eq!(load_highscores_and_lines("1\n\n"), Some((vec![1], vec![])));
    assert_eq!(load_highscores_and_lines("\n\n"), Some((vec![], vec![])));
    assert_eq!(load_highscores_and_lines("x y\n7 z 8\n"), Some((vec![], vec![7, 8])));
}

#[test]
fn a_text_of_another_number_of_lines_gives_nothing() {
    assert_eq!(load_highscores_and_lines(""), None);
    assert_eq!(load_highscores_and_lines("1 2"), None);
    assert_eq!(load_highscores_and_lines("1 2\n"), None);
    assert_eq!(load_highscores_and_lines("\n"), None);
    assert_eq!(load_highscores_and_lines("1\n2\n3"), None);
    assert_eq!(load_highscores_and_lines("1\n2\n3\n"), None);
    assert_eq!(load_highscores_and_lines("1\n2\n\n"), None);
}

#[test]
fn what_is_saved_is_loaded_again() {
    let scores = vec![0, 17, 1017, u32::MAX];
    let lines = vec![1, 16, 26];
    let text = save_highscores_and_lines(&scores, &lines);
    assert_eq!(load_highscores_and_lines(&text), Some((scores, lines)));
    let nothing = save_highscores_and_lines(&[], &[]);
    assert_eq!(load_highscores_and_lines(&nothing), Some((vec![], vec![])));
}
