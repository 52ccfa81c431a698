use contact_book::command::Command;
use contact_book::dispatch::process_name;
use contact_book::engine::Engine;
use contact_book::import::{Card, CardProperty, ImportError, ImportResult};
use contact_book::phone::{area_code, canonicalize};
use contact_book::pick::{parse_pick_token, PickFault};
use contact_book::report::ImportStats;
use contact_book::store::StoreError;
use contact_book::text::{parse_usize, split_trimmed, split_words};
use contact_book::workflow::DeferredContact;

const ALICE: &str = "+15551234567";

fn prop(name: &str, value: &str) -> CardProperty {
    CardProperty { name: name.to_string(), value: Some(value.to_string()), params: vec![] }
}

fn tel(value: &str, kind: &str) -> CardProperty {
    CardProperty {
        name: "TEL".to_string(),
        value: Some(value.to_string()),
        params: vec![("type".to_string(), vec![kind.to_string()])],
    }
}

fn card(props: Vec<CardProperty>) -> Result<Card, String> {
    Ok(Card { properties: props })
}

fn registered() -> Engine {
    let mut e = Engine::new();
    let r = e.handle_text(ALICE, "name Alice Smith", 0);
    assert!(r.contains("Hello, Alice Smith!"));
    e
}

#[test]
fn scenario_name_import_delete_confirm() {
    let mut e = registered();
    let bob = card(vec![prop("FN", "Bob"), prop("TEL", "+15559876543")]);
    assert_eq!(e.process_vcard(ALICE, &bob, 10), Ok(ImportResult::Added));
    assert_eq!(e.handle_text(ALICE, "contacts", 20), "Your contacts:\n1. Bob (555)");
    let listed = e.handle_text(ALICE, "delete Bob", 30);
    assert!(listed.contains("1. Bob (555)"));
    assert_eq!(e.flows.pending.len(), 1);
    assert_eq!(e.flows.pending[0].token(), "+15551234567:1");
    let done = e.handle_text(ALICE, "confirm 1", 40);
    assert_eq!(done, "Deleted 1 contact:\n• Bob (555)\n");
    assert!(done.starts_with("Deleted 1 contact:\n• Bob (555)"));
    assert_eq!(e.store.contacts.len(), 0);
    assert_eq!(e.flows.pending.len(), 0);
}

#[test]
fn known_sender_empty_body_gets_help_hint() {
    let mut e = registered();
    assert_eq!(e.handle_text(ALICE, "", 5), Command::Help.hint());
    assert_eq!(e.handle_text(ALICE, "   \t ", 5), Command::Help.hint());
    assert_eq!(e.handle_text(ALICE, "\u{b}", 5), Command::Help.hint());
    assert_eq!(e.handle_text(ALICE, "\u{a0}contacts\u{3000}", 5), "You don't have any contacts.");
    assert_eq!(Command::Help.hint(), "Reply \"h\" to list the available commands.");
}

#[test]
fn unknown_sender_only_name_onboards() {
    let mut e = Engine::new();
    let prompt = e.handle_text(ALICE, "contacts", 0);
    assert!(prompt.starts_with("Greetings!"));
    assert!(prompt.ends_with(&Command::Name.hint()));
    assert_eq!(e.handle_text(ALICE, "", 0), prompt);
    assert_eq!(e.handle_text(ALICE, "Name Bob", 0), prompt);
    assert_eq!(e.store.users.len(), 0);
    assert_eq!(e.handle_text(ALICE, "name", 0), prompt);
    assert_eq!(e.handle_text(ALICE, "name abcdefghijklmnopqrstu", 0), prompt);
    assert_eq!(e.store.users.len(), 0);
    e.handle_text(ALICE, "name Al", 0);
    assert_eq!(e.store.users.len(), 1);
}

#[test]
fn importing_same_card_twice_is_unchanged() {
    let mut e = registered();
    let c = card(vec![prop("FN", "Bob"), prop("TEL", "(555) 987-6543")]);
    assert_eq!(e.process_vcard(ALICE, &c, 1), Ok(ImportResult::Added));
    assert_eq!(e.process_vcard(ALICE, &c, 2), Ok(ImportResult::Unchanged));
    assert_eq!(e.store.contacts.len(), 1);
    assert_eq!(e.store.contacts[0].contact_user_number, "+15559876543");
    // the target number became a user named like the contact
    assert_eq!(e.store.users.len(), 2);
}

#[test]
fn renamed_card_updates_once() {
    let mut e = registered();
    let c = card(vec![prop("FN", "Bob"), prop("TEL", "5559876543")]);
    let c2 = card(vec![prop("FN", "Robert"), prop("TEL", "5559876543")]);
    assert_eq!(e.process_vcard(ALICE, &c, 1), Ok(ImportResult::Added));
    assert_eq!(e.process_vcard(ALICE, &c2, 2), Ok(ImportResult::Updated));
    assert_eq!(e.process_vcard(ALICE, &c2, 3), Ok(ImportResult::Unchanged));
    assert_eq!(e.store.contacts[0].contact_name, "Robert");
    assert_eq!(e.store.contacts.len(), 1);
}

#[test]
fn deferral_round_trip() {
    let mut e = registered();
    let c = card(vec![prop("FN", "Carol"), tel("5551110000", "CELL"), tel("5552220000", "WORK")]);
    assert_eq!(e.process_vcard(ALICE, &c, 100), Ok(ImportResult::Deferred));
    assert_eq!(e.store.contacts.len(), 0);
    let r = e.handle_text(ALICE, "pick 1a", 110);
    assert_eq!(r, "Successfully added 1 contact:\n• Carol (+15551110000)\n");
    assert_eq!(e.store.contacts.len(), 1);
    assert_eq!(e.flows.deferred.len(), 0);
    assert_eq!(e.handle_text(ALICE, "pick 1a", 120), "No pending contacts to pick from.");
}

#[test]
fn pick_reports_bad_tokens_and_clears() {
    let mut e = registered();
    let c = card(vec![prop("FN", "Carol"), tel("5551110000", "CELL"), tel("5552220000", "WORK")]);
    e.process_vcard(ALICE, &c, 0);
    let r = e.handle_text(ALICE, "pick 1b, 2a, 1z, x, 0a, 1A", 1);
    assert_eq!(
        r,
        "Successfully added 1 contact:\n• Carol (+15552220000)\n\nFailed to process:\n\
         • Contact number 2 not found\n• Number z not found for contact 1\n\
         • Invalid selection format: x\n• Invalid contact number: 0\n\
         • Invalid letter selection: A\n"
    );
    assert_eq!(e.flows.deferred.len(), 0);
}

#[test]
fn expired_records_are_unreachable() {
    let mut e = registered();
    let c = card(vec![prop("FN", "Carol"), tel("5551110000", "CELL"), tel("5552220000", "WORK")]);
    e.process_vcard(ALICE, &c, 1000);
    assert_eq!(e.handle_text(ALICE, "pick 1a", 1301), "No pending contacts to pick from.");
    assert_eq!(e.flows.deferred.len(), 0);

    let bob = card(vec![prop("FN", "Bob"), prop("TEL", "5559876543")]);
    e.process_vcard(ALICE, &bob, 2000);
    e.handle_text(ALICE, "delete bo", 2000);
    assert_eq!(e.handle_text(ALICE, "confirm 1", 2301), "Errors:\nInvalid selection: 1");
    assert_eq!(e.store.contacts.len(), 1);
    assert_eq!(e.flows.pending.len(), 0);
}

#[test]
fn record_at_the_limit_is_still_live() {
    let mut e = registered();
    let bob = card(vec![prop("FN", "Bob"), prop("TEL", "5559876543")]);
    e.process_vcard(ALICE, &bob, 0);
    e.handle_text(ALICE, "delete Bob", 0);
    assert!(e.handle_text(ALICE, "confirm 1", 300).starts_with("Deleted 1 contact"));
}

#[test]
fn failed_batch_delete_leaves_all_contacts() {
    let mut e = registered();
    for (name, num) in [("Ann", "5550000001"), ("Ann B", "5550000002"), ("Ann C", "5550000003")] {
        let c = card(vec![prop("FN", name), prop("TEL", num)]);
        assert_eq!(e.process_vcard(ALICE, &c, 0), Ok(ImportResult::Added));
    }
    let ids: Vec<u64> = e.store.contacts.iter().map(|c| c.id).collect();
    // the store refuses a batch naming a missing contact and deletes none
    assert_eq!(e.store.delete_contacts(&vec![ids[0], 999, ids[2]]), Err(StoreError::MissingContact));
    assert_eq!(e.store.contacts.len(), 3);
    e.handle_text(ALICE, "delete ann", 0);
    assert_eq!(e.flows.pending.len(), 3);
    // the second contact goes away behind the dialogue's back
    assert_eq!(e.store.delete_contacts(&vec![ids[1]]), Ok(()));
    assert_eq!(
        e.handle_text(ALICE, "confirm 1, 2, 3", 1),
        "Deleted 2 contacts:\n• Ann (555)\n• Ann C (555)\n\nErrors:\nInvalid selection: 2"
    );
    assert_eq!(e.store.contacts.len(), 0);
}

#[test]
fn confirm_reports_invalid_tokens() {
    let mut e = registered();
    let bob = card(vec![prop("FN", "Bob"), prop("TEL", "5559876543")]);
    e.process_vcard(ALICE, &bob, 0);
    e.handle_text(ALICE, "delete BOB", 0);
    let r = e.handle_text(ALICE, "confirm 1, 7, x", 1);
    assert_eq!(r, "Deleted 1 contact:\n• Bob (555)\n\nErrors:\nInvalid selection: 7\nInvalid number: x");
    assert_eq!(e.handle_text(ALICE, "confirm", 1), Command::Confirm.hint());
}

#[test]
fn delete_search_ignores_case() {
    let mut e = registered();
    let bob = card(vec![prop("FN", "Bobby Tables"), prop("TEL", "5559876543")]);
    e.process_vcard(ALICE, &bob, 0);
    let found = e.find_contacts(ALICE, "TABLE");
    assert_eq!(found.len(), 1);
    assert_eq!(e.find_contacts(ALICE, "zed").len(), 0);
}

#[test]
fn import_errors() {
    let mut e = Engine::new();
    let c = card(vec![prop("FN", "Bob"), prop("TEL", "5559876543")]);
    assert_eq!(e.process_vcard(ALICE, &c, 0), Err(ImportError::NotRegistered));
    let mut e = registered();
    assert_eq!(e.process_vcard(ALICE, &Err("bad card".to_string()), 0), Err(ImportError::Decode("bad card".to_string())));
    assert_eq!(e.process_vcard(ALICE, &card(vec![prop("TEL", "5559876543")]), 0), Err(ImportError::NoName));
    assert_eq!(e.process_vcard(ALICE, &card(vec![prop("FN", "Bob"), prop("TEL", "12")]), 0), Err(ImportError::NoNumbers));
}

#[test]
fn batch_report_counts_and_lists_choices() {
    let mut e = registered();
    let cards = vec![
        card(vec![prop("FN", "Bob"), prop("TEL", "5559876543")]),
        card(vec![prop("FN", "Bob"), prop("TEL", "5559876543")]),
        card(vec![prop("FN", "Carol"), tel("5551110000", "CELL"), prop("TEL", "5552220000")]),
        card(vec![prop("FN", "Dan")]),
        card(vec![prop("FN", "Eve")]),
    ];
    let r = e.handle_card_batch(ALICE, &cards, 0);
    assert!(r.starts_with("Processed contacts: 1 added, 0 updated, 1 unchanged, 1 deferred, 2 failed"));
    assert!(r.contains("\n- 2 × No valid phone numbers provided"));
    assert!(r.contains("\n1. Carol\n   a. +15551110000 (CELL)\n   b. +15552220000 (no description)"));
}

#[test]
fn stats_count_repeated_errors_once() {
    let mut s = ImportStats::new();
    s.add_error("boom");
    s.add_error("boom");
    s.add_error("bang");
    assert_eq!(s.failed, 3);
    assert_eq!(s.errors.len(), 2);
    assert_eq!(s.errors[0], ("boom".to_string(), 2));
    let r = s.format_report(&Vec::<DeferredContact>::new());
    assert_eq!(
        r,
        "Processed contacts: 0 added, 0 updated, 0 unchanged, 0 deferred, 3 failed\nErrors encountered:\n- 2 × boom\n- 1 × bang"
    );
}

#[test]
fn names_are_checked() {
    let ws = split_words("name  Alice   Smith ");
    assert_eq!(process_name(&ws, 1), Ok("Alice Smith".to_string()));
    assert_eq!(process_name(&ws, 3), Err("name NAME".to_string()));
    let long = split_words("name abcdefghij klmnopqrstu");
    assert_eq!(
        process_name(&long, 1),
        Err("That name is 22 characters long.\nPlease shorten it to 20 characters or less.".to_string())
    );
}

#[test]
fn help_info_and_unknown_words() {
    let mut e = registered();
    let h = e.handle_text(ALICE, "h", 0);
    assert!(h.starts_with("Available commands:\n- h: list the available commands\n- name: set your name"));
    assert!(h.ends_with(&Command::Info.hint()));
    assert_eq!(e.handle_text(ALICE, "info name", 0), "name NAME, to set your name.\nExample: name Alice Smith");
    assert_eq!(e.handle_text(ALICE, "info nope", 0), "Command \"nope\" not recognized");
    assert_eq!(e.handle_text(ALICE, "info", 0), Command::Info.hint());
    assert_eq!(
        e.handle_text(ALICE, "Contacts", 0),
        format!("We didn't recognize that command word: \"Contacts\".\n{}", Command::Help.hint())
    );
    assert_eq!(e.handle_text(ALICE, "name Al  B", 0), "Your name has been updated to \"Al B\"");
    assert_eq!(e.handle_text(ALICE, "contacts", 0), "You don't have any contacts.");
}

#[test]
fn stop_removes_user_and_contacts() {
    let mut e = registered();
    let bob = card(vec![prop("FN", "Bob"), prop("TEL", "5559876543")]);
    e.process_vcard(ALICE, &bob, 0);
    assert_eq!(e.handle_text(ALICE, "stop", 0), "You've been unsubscribed. Goodbye!");
    assert_eq!(e.store.contacts.len(), 0);
    assert!(e.handle_text(ALICE, "contacts", 0).starts_with("Greetings!"));
}

#[test]
fn numbers_are_canonicalized() {
    assert_eq!(canonicalize("+1 (555) 987-6543"), Some("+15559876543".to_string()));
    assert_eq!(canonicalize("555.987.6543"), Some("+15559876543".to_string()));
    assert_eq!(canonicalize("15559876543"), Some("+15559876543".to_string()));
    assert_eq!(canonicalize("+5559876543"), None);
    assert_eq!(canonicalize("555-CALL-NOW"), None);
    assert_eq!(canonicalize(""), None);
    assert_eq!(area_code("+15559876543"), "555");
}

#[test]
fn tokens_parse() {
    assert_eq!(parse_pick_token("1a"), Ok((0, 0)));
    assert_eq!(parse_pick_token("12c"), Ok((11, 2)));
    assert_eq!(parse_pick_token("a"), Err(PickFault::Format));
    assert_eq!(parse_pick_token("0a"), Err(PickFault::ContactNumber));
    assert_eq!(parse_pick_token("1!"), Err(PickFault::Letter));
    assert_eq!(parse_usize("+7"), Some(7));
    assert_eq!(parse_usize("18446744073709551616"), None);
    assert_eq!(parse_usize(""), None);
    assert_eq!(split_trimmed(" 1a , 2b,"), vec!["1a".to_string(), "2b".to_string(), String::new()]);
}

#[test]
fn contacts_are_listed_by_name() {
    let mut e = registered();
    for (name, num) in [("Zed", "5550000001"), ("Amy", "5550000002"), ("Mia", "6170000003")] {
        let c = card(vec![prop("FN", name), prop("TEL", num)]);
        assert_eq!(e.process_vcard(ALICE, &c, 0), Ok(ImportResult::Added));
    }
    assert_eq!(e.handle_text(ALICE, "contacts", 0), "Your contacts:\n1. Amy (555)\n2. Mia (617)\n3. Zed (555)");
    let r = e.handle_text(ALICE, "delete m", 0);
    assert!(r.contains("\n1. Amy (555)\n2. Mia (617)\n"));
    assert_eq!(e.handle_text(ALICE, "confirm 2", 1), "Deleted 1 contact:\n• Mia (617)\n");
    assert_eq!(e.handle_text(ALICE, "contacts", 1), "Your contacts:\n1. Amy (555)\n2. Zed (555)");
}

#[test]
fn import_error_messages() {
    assert_eq!(
        ImportError::NotRegistered.message(),
        "Please set your name first using the 'name' command before adding contacts"
    );
    assert_eq!(ImportError::Decode("x".to_string()).message(), "x");
    assert_eq!(ImportError::NoName.message(), "No name provided");
    assert_eq!(ImportError::NoNumbers.message(), "No valid phone numbers provided");
}
