use shaat::{Id, MessageGuard, Messages, Messages2};

fn single(texts: &[&str]) -> Messages<String> {
    let mut m: Messages<String> = Messages::default();
    for t in texts {
        m.insert_message(t.to_string()).unwrap();
    }
    m
}

fn grouped(divisor: u32, count: usize) -> Messages2<String> {
    let mut m: Messages2<String> = Messages2::new(divisor);
    for i in 0..count {
        let id = m.insert_message(format!("m{}", i)).unwrap();
        assert_eq!(id, i as Id);
    }
    m
}

#[test]
fn ids_are_given_in_order_from_zero() {
    let mut m: Messages<String> = Messages::default();
    assert_eq!(m.insert_message("a".to_string()), Ok(0));
    assert_eq!(m.insert_message("b".to_string()), Ok(1));
    assert_eq!(m.insert_message("c".to_string()), Ok(2));
}

#[test]
fn inserted_message_is_read_back() {
    let m = single(&["a", "b", "c"]);
    assert_eq!(m.get_message_by_id(0), Ok("a".to_string()));
    assert_eq!(m.get_message_by_id(2), Ok("c".to_string()));
}

#[test]
fn missing_ids_are_not_found() {
    let m = single(&["a"]);
    assert_eq!(m.get_message_by_id(1), Err("Message not found".to_string()));
    assert_eq!(m.get_message_by_id(-1), Err("Message not found".to_string()));
    let empty: Messages<String> = Messages::default();
    assert_eq!(empty.get_message_by_id(0), Err("Message not found".to_string()));
}

#[test]
fn latest_are_the_last_n() {
    let m = single(&["a", "b", "c", "d"]);
    assert_eq!(m.get_latest(2), vec!["c".to_string(), "d".to_string()]);
    assert_eq!(m.get_latest(10).len(), 4);
    assert_eq!(m.get_latest(1), vec!["d".to_string()]);
}

#[test]
fn latest_without_a_count_gives_thirty_two() {
    let mut m: Messages<String> = Messages::default();
    for i in 0..40 {
        m.insert_message(format!("m{}", i)).unwrap();
    }
    let zero = m.get_latest(0);
    assert_eq!(zero.len(), 32);
    assert_eq!(zero[0], "m8");
    assert_eq!(zero[31], "m39");
    assert_eq!(m.get_latest(-5).len(), 32);
}

#[test]
fn latest_of_an_empty_store_is_empty() {
    let m: Messages<String> = Messages::default();
    assert!(m.get_latest(3).is_empty());
    assert!(m.get_latest(0).is_empty());
}

#[test]
fn grouped_store_reads_back_across_groups() {
    let m = grouped(2, 5);
    for i in 0..5 {
        assert_eq!(m.get_message_by_id(i), Ok(format!("m{}", i)));
    }
}

#[test]
fn grouped_store_errors_name_the_missing_part() {
    let m = grouped(1024, 3);
    assert_eq!(m.get_message_by_id(10), Err("Message not found".to_string()));
    assert_eq!(m.get_message_by_id(-1), Err("Message not found".to_string()));
    assert_eq!(m.get_message_by_id(2000), Err("Inner tree not found".to_string()));
    assert_eq!(m.get_message_by_id(-2000), Err("Inner tree not found".to_string()));
    let empty: Messages2<String> = Messages2::default();
    assert_eq!(empty.get_message_by_id(0), Err("Inner tree not found".to_string()));
}

#[test]
fn grouped_latest_without_count_gives_current_and_previous_group() {
    let m = grouped(2, 5);
    assert_eq!(m.get_latest(0), vec!["m2", "m3", "m4"]);
    let small = grouped(1024, 3);
    assert_eq!(small.get_latest(0), vec!["m0", "m1", "m2"]);
}

#[test]
fn grouped_latest_with_count_scans_its_groups() {
    let m = grouped(2, 5);
    assert_eq!(m.get_latest(3), vec!["m2", "m3", "m2", "m3"]);
    assert_eq!(m.get_latest(2), vec!["m3", "m2", "m3"]);
    assert!(m.get_latest(6).is_empty());
}

#[test]
fn unit_groups_give_the_last_n() {
    let m = grouped(1, 5);
    assert_eq!(m.get_latest(2), vec!["m3", "m4"]);
    assert_eq!(m.get_latest(5), vec!["m0", "m1", "m2", "m3", "m4"]);
    let s = single(&["m0", "m1", "m2", "m3", "m4"]);
    assert_eq!(m.get_latest(3), s.get_latest(3));
}

#[test]
fn grouped_latest_with_negative_count_past_the_end_is_empty() {
    let m = grouped(2, 3);
    assert!(m.get_latest(-5).is_empty());
}

#[test]
fn next_id_counts_the_messages() {
    let mut m: Messages<String> = Messages::default();
    assert_eq!(m.next_id(), 0);
    m.insert_message("a".to_string()).unwrap();
    m.insert_message("b".to_string()).unwrap();
    assert_eq!(m.next_id(), 2);
}
