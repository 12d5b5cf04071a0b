use crust::breakout::NewBreakout;
use crust::context::{AppInfo, SharedContext};
use crust::extract::client_ip;
use crust::event::{decode, handle_event, ClientMessage, RoomCommand};
use crust::breakout_channel::BreakoutChannel;
use crust::pagination::{PaginatedResponse, Pagination};
use crust::user::{NewUser, UpdateUser, User, UserRow};

fn message(action: &str, vote: Option<&str>) -> ClientMessage {
    ClientMessage {
        action: action.to_string(),
        vote: vote.map(String::from),
    }
}

fn alice() -> User {
    User {
        id: 7,
        lookup_id: "u1".to_string(),
        display_name: "Alice".to_string(),
        vote: Some(3),
    }
}

#[test]
fn decode_toggle() {
    assert_eq!(decode(&message("toggle_votes", None)), RoomCommand::ToggleVotes);
}

#[test]
fn decode_votes() {
    assert_eq!(decode(&message("vote", Some("5"))), RoomCommand::Vote(Some(5)));
    assert_eq!(decode(&message("vote", Some("-42"))), RoomCommand::Vote(Some(-42)));
    assert_eq!(decode(&message("vote", Some("+8"))), RoomCommand::Vote(Some(8)));
    assert_eq!(decode(&message("vote", None)), RoomCommand::Vote(None));
}

#[test]
fn decode_rejects_bad_votes_and_actions() {
    assert_eq!(decode(&message("vote", Some("abc"))), RoomCommand::Ignore);
    assert_eq!(decode(&message("vote", Some(""))), RoomCommand::Ignore);
    assert_eq!(decode(&message("vote", Some("99999999999999999999"))), RoomCommand::Ignore);
    assert_eq!(decode(&message("dance", Some("5"))), RoomCommand::Ignore);
    assert_eq!(decode(&message("Vote", Some("5"))), RoomCommand::Ignore);
}

#[test]
fn handle_event_dispatches() {
    let mut room = BreakoutChannel::new("abc");
    let mut u = alice();
    u.vote = None;
    room.add_user(&u);
    handle_event(&message("vote", Some("5")), &u, &mut room);
    assert_eq!(room.users()[0].vote, Some(5));
    handle_event(&message("toggle_votes", None), &u, &mut room);
    assert!(room.show_votes());
    handle_event(&message("noise", None), &u, &mut room);
    assert!(room.show_votes());
    assert_eq!(room.users()[0].vote, Some(5));
    handle_event(&message("vote", None), &u, &mut room);
    assert_eq!(room.users()[0].vote, None);
}

#[test]
fn user_from_row_has_no_vote() {
    let u = User::from(UserRow {
        id: 4,
        lookup_id: "x".to_string(),
        display_name: "Xena".to_string(),
    });
    assert_eq!(u.id, 4);
    assert_eq!(u.lookup_id, "x");
    assert_eq!(u.display_name, "Xena");
    assert_eq!(u.vote, None);
}

#[test]
fn update_user_from_user() {
    let u = alice();
    let up = UpdateUser::from(&u);
    assert_eq!(up.id, 7);
    assert_eq!(up.lookup_id, "u1");
    assert_eq!(up.display_name, "Alice");
}

#[test]
fn duplicate_copies_every_field() {
    let u = alice();
    assert_eq!(u.duplicate(), u);
}

#[test]
fn fresh_ids_are_hyphenated_uuids() {
    let a = NewUser::new();
    let b = NewBreakout::default();
    assert_eq!(a.lookup_id.len(), 36);
    assert_eq!(b.lookup_id.len(), 36);
    assert_eq!(a.lookup_id.matches('-').count(), 4);
    assert_ne!(a.lookup_id, b.lookup_id);
}

#[test]
fn shared_context_copies_app_info() {
    let info = AppInfo {
        name: "Guess".to_string(),
        version: "1.2".to_string(),
        website_url: "https://example.com".to_string(),
    };
    let ctx = SharedContext::new(&info, Some(alice()));
    assert_eq!(ctx.app_info.name, "Guess");
    assert_eq!(ctx.app_info.version, "1.2");
    assert_eq!(ctx.app_info.website_url, "https://example.com");
    assert_eq!(ctx.user, Some(alice()));
}

#[test]
fn pagination_defaults() {
    let p = Pagination::default();
    assert_eq!(p.page, Some(1));
    assert_eq!(p.page_size, Some(15));
    let q = Pagination { page: None, page_size: None };
    assert_eq!(q.window(), (1, 10, 0));
    let r = Pagination { page: Some(3), page_size: Some(20) };
    assert_eq!(r.window(), (3, 20, 40));
}

#[test]
fn paginated_response_middle_page() {
    let r = PaginatedResponse::new(vec![1, 2, 3, 4, 5], 23, 2, 5);
    assert_eq!(r.start, 6);
    assert_eq!(r.end, 10);
    assert!(r.has_prev);
    assert!(r.has_next);
    assert_eq!(r.items.len(), 5);
}

#[test]
fn paginated_response_last_page() {
    let r = PaginatedResponse::new(vec![1, 2, 3], 23, 5, 5);
    assert_eq!(r.start, 21);
    assert_eq!(r.end, 23);
    assert!(r.has_prev);
    assert!(!r.has_next);
}

#[test]
fn paginated_response_first_page() {
    let r = PaginatedResponse::new(vec!['a'], 1, 1, 10);
    assert_eq!(r.start, 1);
    assert_eq!(r.end, 1);
    assert!(!r.has_prev);
    assert!(!r.has_next);
}

#[test]
fn paginated_response_default() {
    let r: PaginatedResponse<u8> = PaginatedResponse::default();
    assert_eq!((r.total, r.page, r.start, r.end, r.page_size), (0, 1, 1, 1, 10));
    assert!(!r.has_next && !r.has_prev && r.items.is_empty());
}

#[test]
fn client_ip_takes_first_forwarded_entry() {
    let ip = client_ip(Some(" 203.0.113.7 , 10.0.0.1"), "127.0.0.1");
    assert_eq!(ip.0, "203.0.113.7");
}

#[test]
fn client_ip_without_comma_trims_whole_header() {
    let ip = client_ip(Some("\t198.51.100.2  "), "127.0.0.1");
    assert_eq!(ip.0, "198.51.100.2");
}

#[test]
fn client_ip_falls_back_to_peer() {
    assert_eq!(client_ip(None, "192.0.2.1").0, "192.0.2.1");
    assert_eq!(client_ip(Some(",x"), "192.0.2.1").0, "");
}

#[test]
fn fresh_ids_are_lower_case_hex() {
    let id = NewUser::new().lookup_id;
    for (i, c) in id.chars().enumerate() {
        if i == 8 || i == 13 || i == 18 || i == 23 {
            assert_eq!(c, '-');
        } else {
            assert!(c.is_ascii_digit() || ('a'..='f').contains(&c));
        }
    }
}

#[test]
fn client_ip_trims_unicode_white_space() {
    let ip = client_ip(Some("\u{3000}10.1.2.3\u{a0}\u{2028},x"), "127.0.0.1");
    assert_eq!(ip.0, "10.1.2.3");
}
