use netio::common::NetStat;

fn stat(sent_count: usize, sent_bytes: usize, sent_bytes_all: usize) -> NetStat {
    NetStat { sent_count, sent_bytes, sent_bytes_all }
}

fn fields(s: &NetStat) -> (usize, usize, usize) {
    (s.sent_count, s.sent_bytes, s.sent_bytes_all)
}

#[test]
fn default_is_all_zero() {
    assert_eq!(fields(&NetStat::default()), (0, 0, 0));
}

#[test]
fn add_is_pointwise() {
    let sum = stat(1, 5, 9) + stat(2, 7, 7);
    assert_eq!(fields(&sum), (3, 12, 16));
}

#[test]
fn sub_is_pointwise() {
    let diff = stat(3, 12, 16) - stat(2, 7, 7);
    assert_eq!(fields(&diff), (1, 5, 9));
}

#[test]
fn div_is_pointwise_floor_division() {
    let avg = stat(7, 20, 31) / 3;
    assert_eq!(fields(&avg), (2, 6, 10));
    let whole = stat(7, 20, 31) / 1;
    assert_eq!(fields(&whole), (7, 20, 31));
    let small = stat(1, 2, 3) / 4;
    assert_eq!(fields(&small), (0, 0, 0));
}

#[test]
fn add_commutes() {
    let a = stat(4, 100, 140);
    let b = stat(9, 3, 57);
    assert_eq!(fields(&(a.clone() + b.clone())), fields(&(b + a)));
}

#[test]
fn add_is_associative() {
    let a = stat(4, 100, 140);
    let b = stat(9, 3, 57);
    let c = stat(1, 1, 2);
    let left = (a.clone() + b.clone()) + c.clone();
    let right = a + (b + c);
    assert_eq!(fields(&left), (14, 104, 199));
    assert_eq!(fields(&left), fields(&right));
}

#[test]
fn zero_is_the_identity_of_add() {
    let a = stat(4, 100, 140);
    assert_eq!(fields(&(a.clone() + NetStat::default())), (4, 100, 140));
    assert_eq!(fields(&(NetStat::default() + a)), (4, 100, 140));
}

#[test]
fn sub_undoes_add() {
    let a = stat(4, 100, 140);
    let b = stat(9, 3, 57);
    let back = (a.clone() + b.clone()) - b;
    assert_eq!(fields(&back), fields(&a));
}

#[test]
fn sub_of_itself_is_zero() {
    let a = stat(4, 100, 140);
    assert_eq!(fields(&(a.clone() - a)), (0, 0, 0));
}

#[test]
fn add_reaches_the_largest_count() {
    let sum = stat(usize::MAX - 1, 0, 0) + stat(1, 0, 0);
    assert_eq!(fields(&sum), (usize::MAX, 0, 0));
}

#[test]
fn clone_keeps_every_counter() {
    let a = stat(4, 100, 140);
    assert_eq!(fields(&a.clone()), (4, 100, 140));
}
