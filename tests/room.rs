use std::sync::Arc;

use crust::breakout_channel::{sort_keys, BreakoutChannel};
use crust::fanout::RoomMessage;
use crust::registry::BreakoutChannels;
use crust::user::User;

fn user(id: i64, lookup_id: &str, name: &str) -> User {
    User {
        id,
        lookup_id: lookup_id.to_string(),
        display_name: name.to_string(),
        vote: None,
    }
}

fn names(channel: &BreakoutChannel) -> Vec<String> {
    channel
        .snapshot()
        .into_iter()
        .map(|p| p.display_name)
        .collect()
}

fn vote_of(channel: &BreakoutChannel, lookup_id: &str) -> Option<i64> {
    channel
        .users()
        .iter()
        .find(|u| u.lookup_id == lookup_id)
        .and_then(|u| u.vote)
}

#[test]
fn join_twice_keeps_one_entry() {
    let mut room = BreakoutChannel::new("abc");
    room.add_user(&user(1, "u1", "Alice"));
    room.add_user(&user(1, "u1", "Alice"));
    assert_eq!(room.users().len(), 1);
    assert_eq!(room.users()[0].lookup_id, "u1");
}

#[test]
fn rejoin_keeps_vote() {
    let mut room = BreakoutChannel::new("abc");
    room.add_user(&user(1, "u1", "Alice"));
    room.vote("u1", Some(3));
    room.add_user(&user(1, "u1", "Alice"));
    assert_eq!(vote_of(&room, "u1"), Some(3));
}

#[test]
fn same_vote_twice_clears_it() {
    let mut room = BreakoutChannel::new("abc");
    room.add_user(&user(1, "u1", "Alice"));
    room.vote("u1", Some(5));
    assert_eq!(vote_of(&room, "u1"), Some(5));
    room.vote("u1", Some(5));
    assert_eq!(vote_of(&room, "u1"), None);
}

#[test]
fn other_vote_overwrites() {
    let mut room = BreakoutChannel::new("abc");
    room.add_user(&user(1, "u1", "Alice"));
    room.vote("u1", Some(5));
    room.vote("u1", Some(8));
    assert_eq!(vote_of(&room, "u1"), Some(8));
}

#[test]
fn vote_of_unknown_participant_changes_nothing() {
    let mut room = BreakoutChannel::new("abc");
    room.add_user(&user(1, "u1", "Alice"));
    room.vote("ghost", Some(5));
    assert_eq!(room.users().len(), 1);
    assert_eq!(vote_of(&room, "u1"), None);
}

#[test]
fn reveal_keeps_votes_and_new_round_clears_them() {
    let mut room = BreakoutChannel::new("abc");
    room.add_user(&user(1, "u1", "Alice"));
    room.add_user(&user(2, "u2", "bob"));
    room.vote("u1", Some(5));
    room.vote("u2", Some(2));
    room.toggle_votes();
    assert!(room.show_votes());
    assert_eq!(vote_of(&room, "u1"), Some(5));
    assert_eq!(vote_of(&room, "u2"), Some(2));
    room.toggle_votes();
    assert!(!room.show_votes());
    assert_eq!(vote_of(&room, "u1"), None);
    assert_eq!(vote_of(&room, "u2"), None);
}

#[test]
fn snapshot_sorts_without_regard_to_case() {
    let mut room = BreakoutChannel::new("abc");
    room.add_user(&user(2, "u2", "bob"));
    room.add_user(&user(1, "u1", "Alice"));
    assert_eq!(names(&room), vec!["Alice", "bob"]);
}

#[test]
fn snapshot_folds_case_before_comparing() {
    let mut room = BreakoutChannel::new("abc");
    room.add_user(&user(1, "u1", "Bob"));
    room.add_user(&user(2, "u2", "alice"));
    room.add_user(&user(3, "u3", "CAROL"));
    assert_eq!(names(&room), vec!["alice", "Bob", "CAROL"]);
}

#[test]
fn snapshot_is_stable_for_equal_names() {
    let mut room = BreakoutChannel::new("abc");
    room.add_user(&user(1, "u1", "sam"));
    room.add_user(&user(2, "u2", "Ann"));
    room.add_user(&user(3, "u3", "SAM"));
    room.add_user(&user(4, "u4", "Sam"));
    let ids: Vec<String> = room.snapshot().into_iter().map(|p| p.lookup_id).collect();
    assert_eq!(ids, vec!["u2", "u1", "u3", "u4"]);
}

#[test]
fn snapshot_hides_values_until_revealed() {
    let mut room = BreakoutChannel::new("abc");
    room.add_user(&user(1, "u1", "Alice"));
    room.add_user(&user(2, "u2", "bob"));
    room.vote("u1", Some(5));
    let hidden = room.snapshot();
    assert!(hidden[0].vote_present);
    assert_eq!(hidden[0].vote_value, None);
    assert!(!hidden[1].vote_present);
    room.toggle_votes();
    let shown = room.snapshot();
    assert!(shown[0].vote_present);
    assert_eq!(shown[0].vote_value, Some(5));
    assert_eq!(shown[1].vote_value, None);
}

#[test]
fn sort_keys_is_stable() {
    let keys: Vec<String> = vec!["b", "a", "b", "a", "c"]
        .into_iter()
        .map(String::from)
        .collect();
    assert_eq!(sort_keys(&keys), vec![1, 3, 0, 2, 4]);
}

#[test]
fn sort_keys_of_nothing() {
    assert_eq!(sort_keys(&Vec::new()), Vec::<usize>::new());
}

#[test]
fn rename_moves_participant_and_resorts() {
    let mut room = BreakoutChannel::new("abc");
    room.add_user(&user(1, "u1", "Alice"));
    room.add_user(&user(2, "u2", "bob"));
    room.user_changed_name(&user(1, "u1", "Zed"));
    assert_eq!(room.users().len(), 2);
    assert_eq!(room.users()[1].display_name, "Zed");
    assert_eq!(names(&room), vec!["bob", "Zed"]);
}

#[test]
fn leave_removes_only_that_participant() {
    let mut room = BreakoutChannel::new("abc");
    room.add_user(&user(1, "u1", "Alice"));
    room.add_user(&user(2, "u2", "bob"));
    room.remove_user("u1");
    assert_eq!(room.users().len(), 1);
    assert_eq!(room.users()[0].lookup_id, "u2");
    room.remove_user("nobody");
    assert_eq!(room.users().len(), 1);
    assert!(!room.is_empty());
    room.remove_user("u2");
    assert!(room.is_empty());
}

#[test]
fn subscriber_gets_events_then_roster() {
    let mut room = BreakoutChannel::new("abc");
    room.add_user(&user(1, "u1", "Alice"));
    let mut rx = room.subscribe();
    room.vote("u1", Some(5));
    room.toggle_votes();
    room.toggle_votes();
    match rx.try_recv().unwrap() {
        RoomMessage::Voters { revealed, participants } => {
            assert!(!revealed);
            assert_eq!(participants.len(), 1);
            assert!(participants[0].vote_present);
        }
        other => panic!("unexpected {:?}", other),
    }
    assert!(matches!(rx.try_recv().unwrap(), RoomMessage::Revealed));
    match rx.try_recv().unwrap() {
        RoomMessage::Voters { revealed, participants } => {
            assert!(revealed);
            assert_eq!(participants[0].vote_value, Some(5));
        }
        other => panic!("unexpected {:?}", other),
    }
    assert!(matches!(rx.try_recv().unwrap(), RoomMessage::RoundStarted));
    match rx.try_recv().unwrap() {
        RoomMessage::Voters { revealed, participants } => {
            assert!(!revealed);
            assert!(!participants[0].vote_present);
        }
        other => panic!("unexpected {:?}", other),
    }
    assert!(rx.try_recv().is_err());
}

#[test]
fn publishing_without_subscribers_is_fine() {
    let mut room = BreakoutChannel::new("abc");
    room.add_user(&user(1, "u1", "Alice"));
    room.toggle_votes();
    assert!(room.show_votes());
}

#[test]
fn example_scenario() {
    let mut rooms = BreakoutChannels::new();
    let room = BreakoutChannel::find_or_create(&mut rooms, "abc");
    assert!(room.is_empty());
    room.add_user(&user(1, "u1", "Alice"));
    room.add_user(&user(2, "u2", "bob"));
    assert_eq!(names(room), vec!["Alice", "bob"]);
    room.vote("u1", Some(5));
    assert!(room.snapshot()[0].vote_present);
    room.toggle_votes();
    assert!(room.show_votes());
    assert_eq!(vote_of(room, "u1"), Some(5));
    room.toggle_votes();
    assert!(!room.show_votes());
    assert_eq!(vote_of(room, "u1"), None);
}

#[test]
fn empty_room_is_removed_and_recreated_fresh() {
    let mut rooms = BreakoutChannels::new();
    {
        let room = BreakoutChannel::find_or_create(&mut rooms, "abc");
        room.add_user(&user(1, "u1", "Alice"));
        room.toggle_votes();
    }
    rooms.remove_if_empty("abc");
    assert!(rooms.get("abc").is_some());
    {
        let room = BreakoutChannel::find_or_create(&mut rooms, "abc");
        assert_eq!(room.users().len(), 1);
        room.remove_user("u1");
        assert!(room.is_empty());
    }
    rooms.remove_if_empty("abc");
    assert!(rooms.get("abc").is_none());
    let room = BreakoutChannel::find_or_create(&mut rooms, "abc");
    assert!(room.is_empty());
    assert!(!room.show_votes());
    assert_eq!(room.lookup_id(), "abc");
}

#[test]
fn rooms_are_kept_apart() {
    let mut rooms = BreakoutChannels::new();
    BreakoutChannel::find_or_create(&mut rooms, "a").add_user(&user(1, "u1", "Alice"));
    BreakoutChannel::find_or_create(&mut rooms, "b").add_user(&user(2, "u2", "bob"));
    BreakoutChannel::find_or_create(&mut rooms, "a").add_user(&user(3, "u3", "Cy"));
    assert_eq!(rooms.get("a").unwrap().users().len(), 2);
    assert_eq!(rooms.get("b").unwrap().users().len(), 1);
    rooms.remove_if_empty("missing");
    assert!(rooms.get("missing").is_none());
}

#[test]
fn concurrent_distinct_joins_all_land() {
    let rooms = Arc::new(tokio::sync::Mutex::new(BreakoutChannels::new()));
    let runtime = tokio::runtime::Builder::new_multi_thread()
        .worker_threads(4)
        .build()
        .unwrap();
    let n: i64 = 50;
    runtime.block_on(async {
        let mut handles = Vec::new();
        for i in 0..n {
            let rooms = rooms.clone();
            handles.push(tokio::spawn(async move {
                let mut guard = rooms.lock().await;
                let room = BreakoutChannel::find_or_create(&mut guard, "abc");
                room.add_user(&user(i, &format!("u{}", i), &format!("name {}", i)));
            }));
        }
        for h in handles {
            h.await.unwrap();
        }
    });
    let guard = runtime.block_on(rooms.lock());
    let room = guard.get("abc").unwrap();
    assert_eq!(room.users().len(), n as usize);
    let mut ids: Vec<String> = room.users().iter().map(|u| u.lookup_id.clone()).collect();
    ids.sort();
    ids.dedup();
    assert_eq!(ids.len(), n as usize);
}

#[test]
fn disconnect_leaves_and_discards_empty_room() {
    let mut rooms = BreakoutChannels::new();
    {
        let room = BreakoutChannel::find_or_create(&mut rooms, "abc");
        room.add_user(&user(1, "u1", "Alice"));
        room.add_user(&user(2, "u2", "bob"));
    }
    let mut rx = BreakoutChannel::find_or_create(&mut rooms, "abc").subscribe();
    rooms.disconnect("abc", "u1");
    assert_eq!(rooms.get("abc").unwrap().users().len(), 1);
    match rx.try_recv().unwrap() {
        RoomMessage::Voters { participants, .. } => assert_eq!(participants.len(), 1),
        other => panic!("unexpected {:?}", other),
    }
    rooms.disconnect("abc", "u2");
    assert!(rooms.get("abc").is_none());
    rooms.disconnect("abc", "u2");
    assert!(rooms.get("abc").is_none());
}

#[test]
fn subscriber_of_one_room_hears_nothing_from_another() {
    let mut rooms = BreakoutChannels::new();
    BreakoutChannel::find_or_create(&mut rooms, "a").add_user(&user(1, "u1", "Alice"));
    let mut rx = BreakoutChannel::find_or_create(&mut rooms, "a").subscribe();
    BreakoutChannel::find_or_create(&mut rooms, "b").add_user(&user(2, "u2", "bob"));
    assert!(rx.try_recv().is_err());
    BreakoutChannel::find_or_create(&mut rooms, "a").vote("u1", Some(1));
    assert!(rx.try_recv().is_ok());
}
