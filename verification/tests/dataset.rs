use my_torch_analyzer::chess::dataset::{
    convert_to_training_data, extract_fen, read_chess_lines, read_training_data,
};
use my_torch_analyzer::chess::labels::{label_to_targets, outputs_to_label};
use my_torch_analyzer::generator::{extract_base_name, network_file_name};

const START: &str = "rnbqkbnr/pppppppp/8/8/8/8/PPPPPPPP/RNBQKBNR w KQkq - 0 1";

#[test]
fn labels_become_targets() {
    assert_eq!(label_to_targets("Nothing"), Ok(vec![1, 0, 0, 0, 0]));
    assert_eq!(label_to_targets("Check White"), Ok(vec![0, 1, 0, 0, 0]));
    assert_eq!(label_to_targets("Check Black"), Ok(vec![0, 0, 1, 0, 0]));
    assert_eq!(label_to_targets("Checkmate White"), Ok(vec![0, 0, 0, 1, 0]));
    assert_eq!(label_to_targets("Checkmate Black"), Ok(vec![0, 0, 0, 0, 1]));
    assert_eq!(label_to_targets("Check White, Nothing"), Ok(vec![1, 0, 0, 0, 0]));
    assert_eq!(label_to_targets("Check White Checkmate Black"), Ok(vec![0, 0, 0, 0, 1]));
    assert_eq!(label_to_targets("Check"), Err(String::from("Unknown label: Check")));
    assert_eq!(label_to_targets(""), Err(String::from("Unknown label: ")));
}

#[test]
fn classes_become_labels() {
    assert_eq!(outputs_to_label(1, 0), "Nothing");
    assert_eq!(outputs_to_label(1, 1), "Check");
    assert_eq!(outputs_to_label(2, 0), "Nothing");
    assert_eq!(outputs_to_label(2, 1), "Check");
    assert_eq!(outputs_to_label(3, 0), "Nothing");
    assert_eq!(outputs_to_label(3, 1), "Check");
    assert_eq!(outputs_to_label(3, 2), "Checkmate");
    assert_eq!(outputs_to_label(3, 3), "Unknown");
    assert_eq!(outputs_to_label(5, 0), "Nothing");
    assert_eq!(outputs_to_label(5, 1), "Check White");
    assert_eq!(outputs_to_label(5, 2), "Check Black");
    assert_eq!(outputs_to_label(5, 3), "Checkmate White");
    assert_eq!(outputs_to_label(5, 4), "Checkmate Black");
    assert_eq!(outputs_to_label(5, 5), "Unknown");
    assert_eq!(outputs_to_label(4, 2), "Class 2");
    assert_eq!(outputs_to_label(0, 0), "Class 0");
    assert_eq!(outputs_to_label(7, 12), "Class 12");
}

#[test]
fn a_position_is_taken_from_its_line() {
    assert_eq!(extract_fen(&format!("{} Check White", START)), START);
    assert_eq!(extract_fen(&format!("  {}   Nothing", START.replace(' ', "  "))), START);
    assert_eq!(extract_fen(START), START);
    assert_eq!(extract_fen(" 8/8 w "), " 8/8 w ");
    assert_eq!(extract_fen(""), "");
}

#[test]
fn examples_are_read() {
    let content = format!("{} Nothing\n\n  \r\n{}\tCheckmate   White\r\n", START, START);
    let data = read_training_data(&content, "boards.txt").unwrap();
    assert_eq!(
        data,
        vec![
            (String::from(START), String::from("Nothing")),
            (String::from(START), String::from("Checkmate White")),
        ]
    );
    assert_eq!(
        read_training_data(&format!("{} Nothing\n{}\n", START, START), "boards.txt"),
        Err(String::from("Invalid format at line 2: expected FEN (6 fields) + LABEL"))
    );
    assert_eq!(
        read_training_data("\n \n", "boards.txt"),
        Err(String::from("No training data found in boards.txt"))
    );
    assert_eq!(
        read_training_data("", "x"),
        Err(String::from("No training data found in x"))
    );
}

#[test]
fn lines_of_positions_are_read() {
    assert_eq!(
        read_chess_lines(" a b \n\n\tc\r\n   \n", "boards.txt"),
        Ok(vec![String::from("a b"), String::from("c")])
    );
    assert_eq!(
        read_chess_lines("\n  \n", "boards.txt"),
        Err(String::from("File boards.txt is empty"))
    );
    assert_eq!(read_chess_lines("", "b"), Err(String::from("File b is empty")));
}

#[test]
fn examples_become_inputs_and_targets() {
    let raw = vec![
        (String::from("8/8/8/8/8/8/8/K7 w - - 0 1"), String::from("Nothing")),
        (String::from("8/8/8/8/8/8/8/k7 b - - 0 1"), String::from("Check Black")),
    ];
    let data = convert_to_training_data(&raw).unwrap();
    assert_eq!(data.len(), 2);
    assert_eq!(data[0].0.len(), 833);
    assert_eq!(data[0].0[56 * 13 + 6], 1);
    assert_eq!(data[0].0[832], 1);
    assert_eq!(data[0].1, vec![1, 0, 0, 0, 0]);
    assert_eq!(data[1].0[56 * 13 + 12], 1);
    assert_eq!(data[1].0[832], 0);
    assert_eq!(data[1].1, vec![0, 0, 1, 0, 0]);
    assert_eq!(convert_to_training_data(&Vec::new()), Ok(Vec::new()));
}

#[test]
fn conversion_errors() {
    let bad_position = vec![
        (String::from("8/8/8/8/8/8/8/8 w"), String::from("Nothing")),
        (String::from("8/8/8/8 w"), String::from("Nothing")),
    ];
    assert_eq!(
        convert_to_training_data(&bad_position),
        Err(String::from("Error parsing FEN at example 2: Invalid FEN: expected 8 ranks, got 4"))
    );
    let bad_label = vec![(String::from("8/8/8/8/8/8/8/8 w"), String::from("Stalemate"))];
    assert_eq!(
        convert_to_training_data(&bad_label),
        Err(String::from("Unknown label: Stalemate"))
    );
}

#[test]
fn base_names() {
    assert_eq!(extract_base_name("configs/default.conf"), "default");
    assert_eq!(extract_base_name("default.conf"), "default");
    assert_eq!(extract_base_name("a/b.c/fast.tar.gz"), "fast");
    assert_eq!(extract_base_name("a/b/"), "");
    assert_eq!(extract_base_name("/x"), "x");
    assert_eq!(extract_base_name(".hidden"), "");
    assert_eq!(extract_base_name(""), "");
    for path in ["configs/default.conf", "a.b/c", "x", "a/b/", ".x.y"] {
        let filename = path.rsplit('/').next().unwrap_or(path);
        let name = filename.split('.').next().unwrap_or(filename);
        assert_eq!(extract_base_name(path), name);
    }
}

#[test]
fn file_names() {
    assert_eq!(network_file_name("default", 1, 1), "default.nn");
    assert_eq!(network_file_name("default", 3, 1), "default_1.nn");
    assert_eq!(network_file_name("default", 3, 3), "default_3.nn");
    assert_eq!(network_file_name("", 0, 10), "_10.nn");
}
