use sf::network::{local_ip, server_url, HostAddr};
use std::cell::RefCell;

fn addr(a: u8, b: u8, c: u8, d: u8) -> HostAddr {
    HostAddr { a, b, c, d }
}

#[test]
fn the_first_usable_address_is_taken() {
    let asked: RefCell<Vec<String>> = RefCell::new(Vec::new());
    let found = local_ip(|t: &str| {
        asked.borrow_mut().push(t.to_string());
        if t == "1.1.1.1:80" { Some(addr(192, 168, 1, 5)) } else { None }
    });
    assert_eq!(found, Some(addr(192, 168, 1, 5)));
    assert_eq!(*asked.borrow(), vec!["8.8.8.8:80", "1.1.1.1:80"]);
}

#[test]
fn loopback_and_unspecified_addresses_are_passed_over() {
    let found = local_ip(|t: &str| {
        if t == "8.8.8.8:80" {
            Some(addr(127, 0, 0, 1))
        } else if t == "1.1.1.1:80" {
            Some(addr(0, 0, 0, 0))
        } else {
            Some(addr(10, 0, 0, 2))
        }
    });
    assert_eq!(found, Some(addr(10, 0, 0, 2)));
    assert_eq!(local_ip(|_| Some(addr(127, 9, 9, 9))), None);
    assert_eq!(local_ip(|_| Some(addr(0, 0, 0, 1))), Some(addr(0, 0, 0, 1)));
}

#[test]
fn all_three_targets_are_tried() {
    let asked: RefCell<Vec<String>> = RefCell::new(Vec::new());
    let found = local_ip(|t: &str| {
        asked.borrow_mut().push(t.to_string());
        None
    });
    assert_eq!(found, None);
    assert_eq!(*asked.borrow(), vec!["8.8.8.8:80", "1.1.1.1:80", "223.5.5.5:80"]);
}

#[test]
fn the_url_names_address_and_port() {
    assert_eq!(server_url(Some(addr(192, 168, 0, 10)), 40001), "http://192.168.0.10:40001/");
    assert_eq!(server_url(Some(addr(255, 0, 100, 9)), 65535), "http://255.0.100.9:65535/");
    assert_eq!(server_url(None, 80), "http://127.0.0.1:80/");
}

#[test]
fn different_servers_have_different_urls() {
    let one = server_url(Some(addr(1, 11, 1, 1)), 80);
    assert_ne!(one, server_url(Some(addr(11, 1, 1, 1)), 80));
    assert_ne!(one, server_url(Some(addr(1, 11, 1, 1)), 81));
}
