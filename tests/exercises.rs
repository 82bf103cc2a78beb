use qulog::http_client::{Error, ErrorStatus};
use qulog::linked_list::{LLNode, LinkedList};
use qulog::stack::Stack;
use qulog::tictactoe::{
    after_turn, is_somebody_won, new_table, play_turn, GameCommand, GameCommandMark, GameState,
    Turn,
};

#[test]
fn linked_list_create() {
    let linked_list: LinkedList<i32> = LinkedList::new();
    match linked_list.head() {
        LLNode::Node(_, _) => {
            assert!(true);
        }
        LLNode::EOL => {}
    };
}

#[test]
fn linked_list_mutation() {
    let mut linked_list = LinkedList::new();

    linked_list.append(10);
    linked_list.append(12);
    linked_list.append(13);

    linked_list.push(0);
    linked_list.push(1);

    let mut iter = linked_list;
    assert_eq!(iter.next(), Some(1));
    assert_eq!(iter.next(), Some(0));
    assert_eq!(iter.next(), Some(10));
    assert_eq!(iter.next(), Some(12));
    assert_eq!(iter.next(), Some(13));
}

#[test]
fn linked_list_read_restarts_after_end() {
    let mut list = LinkedList::new();
    assert_eq!(list.next(), None);
    list.append(7);
    list.append(8);
    assert_eq!(list.next(), Some(7));
    assert_eq!(list.next(), Some(8));
    assert_eq!(list.next(), None);
    assert_eq!(list.next(), Some(7));
}

#[test]
fn test_stack_push_pop() {
    let vec = vec![1, 2, 3, 4];
    let mut stack = Stack::from(vec);
    stack.push(5);
    stack.push(6);
    stack.pop();

    assert_eq!(stack.peak(), Some(&5))
}

#[test]
fn stack_pop_on_empty_keeps_it_empty() {
    let mut stack: Stack<u8> = Stack::from(Vec::new());
    assert!(stack.is_empty());
    stack.pop();
    assert!(stack.is_empty());
    assert_eq!(stack.peak(), None);
    stack.push(3);
    assert!(!stack.is_empty());
    assert_eq!(stack.peak(), Some(&3));
}

#[test]
fn test_game_command_from_string() {
    assert_eq!(GameCommand::buid("quit"), Ok(GameCommand::Quit));
    assert_eq!(GameCommand::buid("restart"), Ok(GameCommand::Restart));
    assert_eq!(
        GameCommand::buid("12X"),
        Ok(GameCommand::Mark(GameCommandMark::X, 1, 2))
    );
    assert_eq!(
        GameCommand::buid("13o"),
        Ok(GameCommand::Mark(GameCommandMark::O, 1, 3))
    );
    assert_eq!(GameCommand::buid("04o"), Err("Invalid command"));
}

#[test]
fn game_command_ignores_case_and_surrounding_space() {
    assert_eq!(GameCommand::buid("  QuIt \n"), Ok(GameCommand::Quit));
    assert_eq!(GameCommand::buid("\tRESTART"), Ok(GameCommand::Restart));
    assert_eq!(GameCommand::buid("33x "), Err("Invalid command"));
    assert_eq!(GameCommand::buid("31q"), Err("Invalid command"));
    assert_eq!(GameCommand::buid("4"), Err("Invalid command"));
    assert_eq!(
        GameCommand::buid("33O"),
        Ok(GameCommand::Mark(GameCommandMark::O, 3, 3))
    );
}

#[test]
fn game_marks() {
    assert_eq!(GameCommandMark::from('X'), Some(GameCommandMark::X));
    assert_eq!(GameCommandMark::from('o'), Some(GameCommandMark::O));
    assert_eq!(GameCommandMark::from('-'), None);
    assert_eq!(GameCommandMark::X.to_char(), 'X');
    assert_eq!(GameCommandMark::O.to_char(), 'O');
    assert_eq!(GameCommandMark::X.toggle(), GameCommandMark::O);
    assert_eq!(GameCommandMark::O.toggle(), GameCommandMark::X);
}

#[test]
fn test_is_somebody_won() {
    let table = new_table();
    assert_eq!(is_somebody_won(&table), None);

    let mut table = new_table();
    table[0][0] = String::from("x");
    table[0][1] = String::from("x");
    table[0][2] = String::from("x");

    assert_eq!(is_somebody_won(&table), Some(GameCommandMark::X));

    let mut table = new_table();
    table[0][0] = String::from("o");
    table[1][1] = String::from("o");
    table[2][2] = String::from("o");

    assert_eq!(is_somebody_won(&table), Some(GameCommandMark::O));

    let mut table = new_table();
    table[0][0] = String::from("o");
    table[1][0] = String::from("o");
    table[2][0] = String::from("o");

    assert_eq!(is_somebody_won(&table), Some(GameCommandMark::O));
}

#[test]
fn winner_reads_cells_in_either_case() {
    let mut table = new_table();
    table[2][0] = String::from("X");
    table[1][1] = String::from("x");
    table[0][2] = String::from("X");
    assert_eq!(is_somebody_won(&table), Some(GameCommandMark::X));

    let mut table = new_table();
    table[0][0] = String::from("X");
    table[0][1] = String::from("O");
    table[0][2] = String::from("X");
    assert_eq!(is_somebody_won(&table), None);
}

#[test]
fn new_table_is_blank() {
    let table = new_table();
    assert_eq!(table.len(), 3);
    for row in &table {
        assert_eq!(row, &vec!["-".to_string(), "-".to_string(), "-".to_string()]);
    }
}

#[test]
fn http_status_classes() {
    assert_eq!(ErrorStatus::from(404), ErrorStatus::NotFound);
    assert_eq!(ErrorStatus::from(500), ErrorStatus::InternalServer);
    assert_eq!(ErrorStatus::from(418), ErrorStatus::Other(418));
}

#[test]
fn http_failure_classes() {
    assert_eq!(
        Error::from_failure(true, Some(404), false),
        Error::Network(ErrorStatus::NotFound)
    );
    assert_eq!(Error::from_failure(true, None, true), Error::Unknown);
    assert_eq!(Error::from_failure(false, None, true), Error::JsonDeserialize);
    assert_eq!(Error::from_failure(false, Some(500), false), Error::Unknown);
}

#[test]
fn turns_mark_cells_and_switch_players() {
    let mut table = new_table();
    let mut player = GameCommandMark::X;
    assert_eq!(play_turn(&mut table, &mut player, "21"), Turn::Marked);
    assert_eq!(table[1][0], "X");
    assert_eq!(player, GameCommandMark::O);
    assert_eq!(play_turn(&mut table, &mut player, "21"), Turn::AlreadyMarked);
    assert_eq!(player, GameCommandMark::O);
    assert_eq!(play_turn(&mut table, &mut player, "33x"), Turn::Marked);
    assert_eq!(table[2][2], "X");
    assert_eq!(player, GameCommandMark::X);
    assert_eq!(play_turn(&mut table, &mut player, "44"), Turn::Invalid);
    assert_eq!(play_turn(&mut table, &mut player, "Restart"), Turn::Restart);
    assert_eq!(play_turn(&mut table, &mut player, "quit"), Turn::Quit);
    assert_eq!(table[0][0], "-");
}

#[test]
fn game_state_after_a_turn() {
    assert_eq!(after_turn(Turn::Marked, None), GameState::Playing);
    assert_eq!(after_turn(Turn::Restart, None), GameState::New);
    assert_eq!(after_turn(Turn::Quit, None), GameState::Terminated);
    assert_eq!(
        after_turn(Turn::Quit, Some(GameCommandMark::O)),
        GameState::Finished(Some(GameCommandMark::O))
    );
}
