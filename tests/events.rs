use vault_core::event::{collect_events, new_cipher_event, post_events_collect, EventCollection};
use vault_core::model::{Cipher, Event, EventType, Table, VaultError};
use vault_core::store::Store;

fn s(x: &str) -> String {
    x.to_string()
}

fn with_org_cipher() -> Store {
    let mut store = Store::new();
    store.ciphers.push(Cipher::from_parts(s("y"), 1, 1, s("n"), None, Some(s("o"))).unwrap());
    store
}

fn item(type_: i32, date: &str, cipher: Option<&str>) -> EventCollection {
    EventCollection { type_, date: s(date), cipher_id: cipher.map(s) }
}

#[test]
fn event_codes() {
    assert_eq!(EventType::UserLoggedIn.code(), 1000);
    assert_eq!(EventType::CipherClientViewed.code(), 1107);
    assert_eq!(EventType::OrganizationPurgedVault.code(), 1601);
}

#[test]
fn event_for_existing_cipher_takes_its_owners() {
    let mut store = with_org_cipher();
    new_cipher_event(&s("y"), 1107, 42, &s("actor"), 7, &s("10.0.0.1"), &mut store).unwrap();
    assert_eq!(store.events.len(), 1);
    let e = &store.events[0];
    assert_eq!(e.uuid.len(), 36);
    assert_eq!(e.event_type, 1107);
    assert_eq!(e.event_date, 42);
    assert_eq!(e.org_uuid, Some(s("o")));
    assert_eq!(e.user_uuid, None);
    assert_eq!(e.cipher_uuid, Some(s("y")));
    assert_eq!(e.act_user_uuid, Some(s("actor")));
    assert_eq!(e.device_type, Some(7));
    assert_eq!(e.ip_address, Some(s("10.0.0.1")));
    assert_eq!(e.group_uuid, None);
}

#[test]
fn event_for_deleted_cipher_keeps_the_id() {
    let mut store = with_org_cipher();
    new_cipher_event(&s("gone"), 1102, 42, &s("actor"), 7, &s("::1"), &mut store).unwrap();
    let e = &store.events[0];
    assert_eq!(e.cipher_uuid, Some(s("gone")));
    assert_eq!(e.org_uuid, None);
    assert_eq!(e.user_uuid, None);
}

#[test]
fn caller_org_is_overwritten_by_cipher() {
    let store = with_org_cipher();
    let mut base = Event::with_id(s("e1"), 1100, 3);
    base.org_uuid = Some(s("claimed"));
    let e = base.enrich(Some(s("y")), &s("actor"), 1, &s("ip"), &store);
    assert_eq!(e.org_uuid, Some(s("o")));
    assert_eq!(e.uuid, "e1");
}

#[test]
fn resubmitting_an_event_keeps_one_record() {
    let mut store = Store::new();
    let first = Event::with_id(s("e1"), 1000, 1);
    first.save(&mut store).unwrap();
    let mut second = Event::with_id(s("e1"), 1000, 1);
    second.device_type = Some(3);
    second.save(&mut store).unwrap();
    assert_eq!(store.events.len(), 1);
    assert_eq!(store.events[0].device_type, Some(3));
    Event::with_id(s("e1"), 0, 0).delete(&mut store).unwrap();
    assert!(store.events.is_empty());
}

#[test]
fn new_at_uses_given_clock_when_undated() {
    assert_eq!(Event::new_at(s("e"), 1000, None, 77).event_date, 77);
    assert_eq!(Event::new_at(s("e"), 1000, Some(5), 77).event_date, 5);
}

#[test]
fn new_event_defaults_to_now() {
    let e = Event::new(1000, None);
    assert!(e.event_date > 1_600_000_000_000);
    assert_eq!(Event::new(1000, Some(5)).event_date, 5);
}

#[test]
fn batch_skips_malformed_date() {
    let mut store = with_org_cipher();
    let data = vec![
        item(1107, "2023-01-02T03:04:05.678Z", Some("y")),
        item(1108, "not a date", Some("y")),
        item(1000, "2023-01-02T03:04:06.000Z", None),
    ];
    post_events_collect(&data, &s("actor"), 9, &s("ip"), &mut store).unwrap();
    assert_eq!(store.events.len(), 2);
    assert_eq!(store.events[0].event_type, 1107);
    assert_eq!(store.events[0].event_date, 1672628645678);
    assert_eq!(store.events[0].org_uuid, Some(s("o")));
    assert_eq!(store.events[1].event_type, 1000);
    assert_eq!(store.events[1].cipher_uuid, None);
    assert_eq!(store.events[1].act_user_uuid, Some(s("actor")));
}

#[test]
fn batch_with_given_ids() {
    let mut store = with_org_cipher();
    let data = vec![item(1107, "ignored", Some("y")), item(1107, "ignored", None), item(1000, "ignored", Some("gone"))];
    let dates = vec![Some(5), None, Some(7)];
    collect_events(&data, &dates, &vec![s("i1"), s("i2"), s("i3")], &s("actor"), 9, &s("ip"), &mut store).unwrap();
    assert_eq!(store.events.len(), 2);
    assert_eq!(store.events[0].uuid, "i1");
    assert_eq!(store.events[0].event_date, 5);
    assert_eq!(store.events[0].org_uuid, Some(s("o")));
    assert_eq!(store.events[1].uuid, "i3");
    assert_eq!(store.events[1].cipher_uuid, Some(s("gone")));
    assert_eq!(store.events[1].org_uuid, None);
}

#[test]
fn batch_fails_when_store_refuses_events() {
    let mut store = with_org_cipher();
    store.failing = Some(Table::Events);
    let data = vec![item(1107, "2023-01-02T03:04:05.678Z", Some("y"))];
    assert_eq!(post_events_collect(&data, &s("a"), 1, &s("ip"), &mut store), Err(VaultError::StoreFailure));
    assert!(store.events.is_empty());
    let undated = vec![item(1107, "bad", Some("y"))];
    assert_eq!(post_events_collect(&undated, &s("a"), 1, &s("ip"), &mut store), Ok(()));
}

#[test]
fn events_found_by_org_and_cipher_within_range() {
    let mut store = with_org_cipher();
    new_cipher_event(&s("y"), 1107, 10, &s("a"), 1, &s("ip"), &mut store).unwrap();
    new_cipher_event(&s("y"), 1107, 20, &s("a"), 1, &s("ip"), &mut store).unwrap();
    new_cipher_event(&s("y"), 1107, 30, &s("a"), 1, &s("ip"), &mut store).unwrap();
    assert_eq!(Event::find_by_organization_uuid("o", 10, 20, &store).len(), 2);
    assert_eq!(Event::find_by_cipher_uuid("y", 15, 30, &store).len(), 2);
    assert!(Event::find_by_cipher_uuid("other", 0, 100, &store).is_empty());
}
