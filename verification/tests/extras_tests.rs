use wordfreq::builder::UserBuilder;
use wordfreq::hof::compose;
use wordfreq::hof::my_map;

#[test]
fn builder_sets_all_fields() {
    let user = UserBuilder::new("Alice".into(), 30)
        .email("alice@mail.com".into())
        .build();
    assert_eq!(user.name, "Alice");
    assert_eq!(user.age, 30);
    assert_eq!(user.email.as_deref(), Some("alice@mail.com"));
}

#[test]
fn builder_without_email() {
    let user = UserBuilder::new("Bob".into(), 41).build();
    assert_eq!(user.name, "Bob");
    assert_eq!(user.age, 41);
    assert!(user.email.is_none());
}

#[test]
fn factorial_small_values() {
    assert_eq!(wordfreq::arith::factorial(0), 1);
    assert_eq!(wordfreq::arith::factorial(1), 1);
    assert_eq!(wordfreq::arith::factorial(5), 120);
    assert_eq!(wordfreq::arith::factorial(12), 479001600);
}

#[test]
fn arithmetic_helpers() {
    assert_eq!(wordfreq::arith::add(2, 3), 5);
    assert_eq!(wordfreq::arith::double(4), 8);
    assert_eq!(wordfreq::arith::add_three(5), 8);
}

#[test]
fn map_applies_in_order() {
    let nums = vec![1i32, 2, 3, 4];
    let doubled = my_map(&nums, &(|x: &i32| x * 2));
    assert_eq!(doubled, vec![2, 4, 6, 8]);
}

#[test]
fn compose_then_map() {
    let nums = vec![1i32, 2, 3, 4];
    let transform = compose(|x: i32| x + 3, |x: &i32| x * 2);
    let result = my_map(&nums, &transform);
    assert_eq!(result, vec![5, 7, 9, 11]);
}

#[test]
fn curried_add() {
    let add5 = wordfreq::hof::add(5);
    assert_eq!(add5(3), 8);
}
