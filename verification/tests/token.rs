use osiris::address::PeerAddress;
use osiris::token::{encipher_block, TokenService, TOKEN_WINDOW};

#[test]
fn window_is_two_minutes() {
    assert_eq!(TOKEN_WINDOW, 120);
}

#[test]
fn token_is_accepted_where_it_was_issued() {
    let service = TokenService::new(0x0123456789ABCDEF);
    let addr = PeerAddress::new(0x7F000001, 8080);
    for now in [0u64, 1, 119, 120, 1_700_000_000, u64::MAX] {
        let token = service.issue(&addr, now);
        assert!(service.verify(token, &addr, now));
    }
}

#[test]
fn token_is_bound_to_the_address() {
    let service = TokenService::new(42);
    let a = PeerAddress::new(0x0A000001, 6881);
    let now = 1_700_000_000;
    let token = service.issue(&a, now);
    assert!(!service.verify(token, &PeerAddress::new(0x0A000002, 6881), now));
    assert!(!service.verify(token, &PeerAddress::new(0x0A000001, 6882), now));
    assert!(!service.verify(token, &PeerAddress::new(0, 0), now));
    assert_ne!(token, service.issue(&PeerAddress::new(0x0A000002, 6881), now));
}

#[test]
fn token_lives_for_two_windows() {
    let service = TokenService::new(7);
    let addr = PeerAddress::new(0xC0A80101, 51413);
    let issued_at = 1000 * TOKEN_WINDOW + 5;
    let token = service.issue(&addr, issued_at);
    assert!(service.verify(token, &addr, issued_at));
    assert!(service.verify(token, &addr, 1000 * TOKEN_WINDOW + 119));
    assert!(service.verify(token, &addr, 1001 * TOKEN_WINDOW));
    assert!(service.verify(token, &addr, 1001 * TOKEN_WINDOW + 119));
    assert!(!service.verify(token, &addr, 1002 * TOKEN_WINDOW));
    assert!(!service.verify(token, &addr, 1003 * TOKEN_WINDOW));
    assert!(!service.verify(token, &addr, 999 * TOKEN_WINDOW + 119));
}

#[test]
fn token_depends_on_the_window_and_the_secret() {
    let addr = PeerAddress::new(1, 2);
    let service = TokenService::new(1);
    assert_eq!(service.issue(&addr, 0), service.issue(&addr, 119));
    assert_ne!(service.issue(&addr, 0), service.issue(&addr, 120));
    assert_ne!(service.issue(&addr, 0), TokenService::new(2).issue(&addr, 0));
    assert_eq!(service.issue(&addr, 500), TokenService::new(1).issue(&addr, 500));
}

#[test]
fn token_is_no_bare_timestamp() {
    let service = TokenService::new(0x5EC2E7);
    let addr = PeerAddress::new(0x7F000001, 8080);
    let now = 1_700_000_000u64;
    let token = service.issue(&addr, now);
    assert_ne!(token, now);
    assert_ne!(token, now / TOKEN_WINDOW);
    assert!(!service.verify(now, &addr, now));
    assert!(!service.verify(0x41727101980, &addr, now));
}

#[test]
fn token_of_an_exact_value() {
    let keyed = TokenService::new(0x0123456789ABCDEF0123456789ABCDEF);
    assert_eq!(keyed.issue(&PeerAddress::new(0x7F000001, 8080), 1_700_000_000), 0x300d4ef9a5258454);
    let service = TokenService::new(0);
    let addr = PeerAddress::new(0, 0);
    let token = service.issue(&addr, 0);
    assert_eq!(token, 0xdee9d4d8f7131ed9);
    assert_eq!(token, encipher_block(0, 0));
    assert!(service.verify(token, &addr, 0));
    assert!(service.verify(token, &addr, 239));
    assert!(!service.verify(token, &addr, 240));
}

#[test]
fn cipher_agrees_with_the_published_vectors() {
    let key = 0x000102030405060708090a0b0c0d0e0f;
    assert_eq!(encipher_block(key, 0x4142434445464748), 0x497df3d072612cb5);
    assert_eq!(encipher_block(key, 0x4141414141414141), 0xe78f2d13744341d8);
    assert_eq!(encipher_block(key, 0x5a5b6e278948d77f), 0x4141414141414141);
    assert_eq!(encipher_block(0, 0x4142434445464748), 0xa0390589f8b8efa5);
    assert_eq!(encipher_block(0, 0x4141414141414141), 0xed23375a821a8c2d);
    assert_eq!(encipher_block(0, 0x70e1225d6e4e7655), 0x4141414141414141);
}

#[test]
fn token_does_not_come_back() {
    let service = TokenService::new(7);
    let addr = PeerAddress::new(0xC0A80101, 51413);
    let token = service.issue(&addr, 5);
    assert_eq!(token, 0x42e5602597e0177c);
    assert!(service.verify(token, &addr, 5));
    assert!(service.verify(token, &addr, 239));
    let a_window = TOKEN_WINDOW;
    for windows in [2u64, 3, 65535, 65536, 65537, 2 * 65536, 65536 * 65536, 1 << 40] {
        assert!(!service.verify(token, &addr, 5 + windows * a_window));
        assert_ne!(token, service.issue(&addr, 5 + windows * a_window));
    }
    assert!(!service.verify(token, &addr, 7_864_325));
    assert!(!service.verify(token, &addr, u64::MAX));
}

#[test]
fn the_last_windows_of_time_have_tokens_too() {
    let service = TokenService::new(u128::MAX);
    let addr = PeerAddress::new(u32::MAX, u16::MAX);
    let token = service.issue(&addr, u64::MAX);
    assert!(service.verify(token, &addr, u64::MAX));
    assert!(!service.verify(token, &addr, u64::MAX - 2 * TOKEN_WINDOW));
    let earlier = service.issue(&addr, u64::MAX - TOKEN_WINDOW);
    assert!(service.verify(earlier, &addr, u64::MAX));
    assert_ne!(token, earlier);
}

#[test]
fn random_services_accept_their_own_tokens() {
    let a = TokenService::random();
    let b = TokenService::random();
    let addr = PeerAddress::new(0x7F000001, 1);
    let token = a.issue(&addr, 12345);
    assert!(a.verify(token, &addr, 12345));
    let other = b.issue(&addr, 12345);
    assert!(b.verify(other, &addr, 12345));
}
