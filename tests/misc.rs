use dataframe::conv::{bin_to_u, chars_to_str, is_numeric, str_to_i, Line};
use dataframe::date::{to_date, Date};
use dataframe::encoders::{decode, encode, hashme, salt_password, shift};
use dataframe::heap::{find_smallest, heapify, MaxHeap};
use dataframe::linked::MyLinkedList;
use dataframe::recursions::{create_list, fact, fib, filter};
use dataframe::infer::check_string;
use dataframe::scalar::Scalar;
use dataframe::users::{UserBuilder, UserType};

#[test]
fn users_build_and_change() {
    let mut u = UserBuilder::new().name("ann").pass("pw").mail("a@b.c").user_type(UserType::Pro).build();
    assert_eq!(u.name, "ann");
    assert_eq!(u.pass, "pw");
    assert_eq!(u.mail, Some("a@b.c".to_string()));
    assert_eq!(u.phone, None);
    assert_eq!(u.user_type, UserType::Pro);
    u.change_subscription(UserType::Premium);
    assert_eq!(u.user_type, UserType::Premium);
}

#[test]
fn linked_list_is_a_stack() {
    let mut l: MyLinkedList<i32> = MyLinkedList::new();
    assert_eq!(l.pop(), None);
    l.push(1);
    l.push(2);
    assert_eq!(l.peek(), Some(&2));
    assert_eq!(l.pop(), Some(2));
    assert_eq!(l.pop(), Some(1));
    assert_eq!(l.peek(), None);
}

#[test]
fn heap_extracts_largest_first() {
    let mut h = MaxHeap::new();
    for v in [5usize, 1, 9, 3, 7] {
        h.push(v);
    }
    assert_eq!(h.size(), 5);
    assert_eq!(h.get_max(), Some(&9));
    assert_eq!(h.get_min(), Some(&7));
    assert_eq!(h.extract(), Some(9));
    h.sort();
    assert_eq!(h.to_vec(), vec![7, 5, 3, 1]);
}

#[test]
fn bounded_heap_keeps_smallest() {
    let mut h = MaxHeap::with_capacity(3);
    for v in [5usize, 8, 2] {
        h.push(v);
    }
    h.set_max(&1);
    h.sort();
    assert_eq!(h.to_vec(), vec![5, 2, 1]);
}

#[test]
fn conversions() {
    assert_eq!(str_to_i("-42"), -42);
    assert_eq!(str_to_i("+7"), 7);
    assert_eq!(bin_to_u("101"), 5);
    assert_eq!(bin_to_u("11111111"), 255);
    assert_eq!(chars_to_str(vec!['h', 'i']), "hi");
    assert!(is_numeric("0123"));
    assert!(!is_numeric("12a"));
    assert_eq!(Line("AB".to_string()).to_bin(), "10000011000010");
}

#[test]
fn url_round_trip() {
    assert_eq!(encode("a b/c?".to_string()), "a%20b%2Fc%3F");
    assert_eq!(decode("a%20b%2Fc%3F".to_string()), "a b/c?");
    assert_eq!(decode("x%ZZy".to_string()), "xy");
}

#[test]
fn password_helpers() {
    assert_eq!(shift("abcdef".to_string(), 2), "efabcd");
    assert_eq!(shift("abc".to_string(), 3), "abc");
    let empty_digest = "cf83e1357eefb8bdf1542850d66d8007d620e4050b5715dc83f4a921d36ce9ce47d0d13c5d85f2b0ff8318d2877eec2f63b931bd47417a81a538327af927da3e";
    assert_eq!(hashme(""), empty_digest);
    assert_eq!(salt_password(String::new(), "password".to_string()), format!("pass{}word", &empty_digest[5..10]));
    assert_eq!(salt_password(String::new(), "pw".to_string()), "pw");
    assert_eq!(salt_password(String::new(), "éabcdef".to_string()), format!("éab{}cdef", &empty_digest[5..10]));
}

#[test]
fn recursions() {
    assert_eq!(fib(1), 1);
    assert_eq!(fib(5), 16);
    assert_eq!(fact(0), 1);
    assert_eq!(fact(5), 120);
    assert_eq!(fact(12), 479001600);
    let mut v = vec![3, 1, 3, 2, 3];
    assert_eq!(filter(&mut v, 3), vec![3, 1, 0, 2, 0]);
    assert_eq!(create_list(4), vec![1, 2, 3]);
    assert!(create_list(0).is_empty());
}

#[test]
fn text_and_date_wrappers() {
    assert_eq!(Scalar::Text("TRUE".to_string()).to_bool(), Some(true));
    assert_eq!(Scalar::Text("False".to_string()).to_bool(), Some(false));
    assert_eq!(check_string("é1"), (false, false));
    assert_eq!(check_string("3"), (true, false));
    assert_eq!(Scalar::Text("01/01/0001".to_string()).to_date(), Some(Date(1)));
    assert_eq!(Scalar::Text("31/02/2020".to_string()).to_date(), None);
    assert_eq!(to_date(737784), Some(Date(737784)));
    assert_eq!(to_date(i32::MAX as i64), None);
    assert_eq!(Date(10).sub(3), Some(Date(7)));
    assert_eq!(Date(10).div(3), Some(Date(3)));
    assert_eq!(Date(-10).div(3), Some(Date(-3)));
    assert_eq!(Date(i32::MAX).add(1), None);
}

#[test]
fn smallest_k_values() {
    let v = vec![9usize, 4, 7, 1, 8, 2, 2];
    assert_eq!(find_smallest(&v, 3), vec![2, 2, 1]);
    assert_eq!(find_smallest(&v, 1), vec![1]);
    assert!(find_smallest(&v, 0).is_empty());
    assert!(find_smallest(&v, 7).is_empty());
    let mut h = heapify(vec![3, 9, 1]);
    assert_eq!(h.get_max(), Some(&9));
    h.sort();
    assert_eq!(h.to_vec(), vec![9, 3, 1]);
}
