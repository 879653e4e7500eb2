use ping_pong::bridge::to_jvalue;
use ping_pong::counter::PingPong;
use ping_pong::error::PingPongError;
use ping_pong::greeting::{greet, greeting};
use ping_pong::handles::{Handles, NULL_HANDLE};

#[test]
fn it_works() {
    assert_eq!(2 + 2, 4);
}

fn pings(pp: &mut PingPong<u8>, n: u32) -> Vec<u32> {
    let mut fired = Vec::new();
    for _ in 0..n {
        if let Some(v) = pp.ping() {
            fired.push(v);
        }
    }
    fired
}

#[test]
fn scenario_fires_on_third_and_sixth() {
    let mut pp: PingPong<u8> = PingPong::new(0, 3);
    pp.set_callback(1);
    assert_eq!(pings(&mut pp, 3), vec![3]);
    assert_eq!(pings(&mut pp, 2), Vec::<u32>::new());
    assert_eq!(pings(&mut pp, 1), vec![6]);
    assert_eq!(pp.value(), 6);
}

#[test]
fn scenario_through_handles() {
    let mut table: Handles<u8> = Handles::new();
    let h = table.create(0, 3).unwrap();
    assert_ne!(h, NULL_HANDLE);
    assert_eq!(table.set_callback(h, 9), Ok(()));
    let mut fired = Vec::new();
    for _ in 0..6 {
        if let Some(v) = table.ping(h).unwrap() {
            fired.push((*table.get(h).unwrap().callback().unwrap(), v));
        }
    }
    assert_eq!(fired, vec![(9, 3), (9, 6)]);
}

#[test]
fn trigger_advances_fire_exactly_once() {
    let mut pp: PingPong<u8> = PingPong::new(10, 4);
    pp.set_callback(1);
    assert_eq!(pings(&mut pp, 4), vec![12]);
}

#[test]
fn n_advances_count_multiples() {
    let mut pp: PingPong<u8> = PingPong::new(0, 3);
    pp.set_callback(1);
    assert_eq!(pings(&mut pp, 10), vec![3, 6, 9]);
    assert_eq!(pp.value(), 10);
    let mut pp: PingPong<u8> = PingPong::new(7, 5);
    pp.set_callback(1);
    assert_eq!(pings(&mut pp, 14).len(), 21 / 5 - 7 / 5);
    assert_eq!(pp.value(), 21);
}

#[test]
fn value_wraps_at_u32_max() {
    let mut pp: PingPong<u8> = PingPong::new(u32::MAX, 1);
    pp.set_callback(1);
    assert_eq!(pp.ping(), Some(0));
    assert_eq!(pp.value(), 0);
    assert_eq!(pp.trigger(), 1);
}

#[test]
fn replaced_callback_never_fires_again() {
    let mut table: Handles<u8> = Handles::new();
    let h = table.create(0, 2).unwrap();
    table.set_callback(h, 1).unwrap();
    assert_eq!(table.ping(h), Ok(None));
    assert_eq!(table.ping(h), Ok(Some(2)));
    assert_eq!(table.get(h).unwrap().callback(), Some(&1));
    table.set_callback(h, 2).unwrap();
    for _ in 0..6 {
        if table.ping(h).unwrap().is_some() {
            assert_eq!(table.get(h).unwrap().callback(), Some(&2));
        }
    }
}

#[test]
fn no_callback_never_dispatches() {
    let mut pp: PingPong<u8> = PingPong::new(0, 1);
    assert_eq!(pings(&mut pp, 5), Vec::<u32>::new());
    assert_eq!(pp.value(), 5);
    assert_eq!(pp.callback(), None);
}

#[test]
fn trigger_pong_callback_reports_current_value() {
    let mut pp: PingPong<u8> = PingPong::new(4, 7);
    assert_eq!(pp.trigger_pong_callback(), None);
    pp.set_callback(3);
    assert_eq!(pp.trigger_pong_callback(), Some(4));
}

#[test]
fn release_null_is_noop() {
    let mut table: Handles<u8> = Handles::new();
    let h = table.create(1, 2).unwrap();
    assert!(table.release(NULL_HANDLE).is_none());
    assert_eq!(table.get(h).unwrap().value(), 1);
}

#[test]
fn release_invalidates_only_that_handle() {
    let mut table: Handles<u8> = Handles::new();
    let a = table.create(0, 2).unwrap();
    let b = table.create(5, 3).unwrap();
    let released = table.release(a).unwrap();
    assert_eq!(released.value(), 0);
    assert!(table.release(a).is_none());
    assert_eq!(table.ping(a), Err(PingPongError::InvalidHandle));
    assert_eq!(table.set_callback(a, 1), Err(PingPongError::InvalidHandle));
    assert_eq!(table.ping(b), Ok(None));
    assert_eq!(table.get(b).unwrap().value(), 6);
}

#[test]
fn reused_slot_gets_a_new_handle() {
    let mut table: Handles<u8> = Handles::new();
    let a = table.create(0, 2).unwrap();
    table.release(a);
    let b = table.create(0, 2).unwrap();
    assert_ne!(a, b);
    assert!(table.get(a).is_none());
    assert!(table.get(b).is_some());
}

#[test]
fn unknown_handles_are_refused() {
    let mut table: Handles<u8> = Handles::new();
    assert_eq!(table.ping(NULL_HANDLE), Err(PingPongError::InvalidHandle));
    assert_eq!(table.ping(12345), Err(PingPongError::InvalidHandle));
    assert!(table.get(1).is_none());
}

#[test]
fn zero_trigger_is_refused() {
    let mut table: Handles<u8> = Handles::new();
    assert_eq!(table.create(0, 0), Err(PingPongError::DivisionPrecondition));
    assert!(table.get(1).is_none());
}

#[test]
fn jvalue_keeps_the_bits() {
    assert_eq!(to_jvalue(0), 0);
    assert_eq!(to_jvalue(42), 42);
    assert_eq!(to_jvalue(0x7FFF_FFFF), i32::MAX);
    assert_eq!(to_jvalue(0x8000_0000), i32::MIN);
    assert_eq!(to_jvalue(u32::MAX), -1);
}

#[test]
fn greet_falls_back_to_there() {
    assert_eq!(greet(None), "Hello there");
    assert_eq!(greet(Some(b"world".as_slice())), "Hello world");
    assert_eq!(greet(Some([0xffu8, 0xfe, 0x41].as_slice())), "Hello there");
    assert_eq!(greet(Some("wörld".as_bytes())), "Hello wörld");
    assert_eq!(greet(Some(b"".as_slice())), "Hello ");
}

#[test]
fn greeting_of_decoded_name() {
    assert_eq!(greeting(Some("Ada")), "Hello Ada");
    assert_eq!(greeting(None), "Hello there");
}

#[test]
fn trigger_window_across_wrap_same_block_fires_once() {
    let mut pp: PingPong<u8> = PingPong::new(u32::MAX - 1, 2);
    pp.set_callback(1);
    assert_eq!(pings(&mut pp, 2), vec![0]);
}

#[test]
fn trigger_window_across_wrap_other_block_fires_twice() {
    let mut pp: PingPong<u8> = PingPong::new(u32::MAX - 1, 3);
    pp.set_callback(1);
    assert_eq!(pings(&mut pp, 3), vec![u32::MAX, 0]);
}
