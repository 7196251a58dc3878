//! The event recorder: attributed audit records, stored by id.
use vstd::prelude::*;
use crate::model::{clone_opt, Cipher, Event, EventType, Table, VaultError};
use crate::store::{not_keyed, without_key, Store};
use crate::cipher::spec_find_cipher;
use crate::outside::{new_uuid, now_millis, parse_date, parsed_date_millis};

verus! {

/// `events` after storing `e` by its id: any record with that id is replaced.
pub open spec fn upserted(events: Seq<Event>, e: Event) -> Seq<Event> {
    events.filter(not_keyed::<Event>(e.uuid@)).push(e)
}

/// Every table but the events is the same in `a` and `b`.
pub open spec fn same_but_events(a: &Store, b: &Store) -> bool {
    &&& a.users_organizations == b.users_organizations
    &&& a.collections == b.collections
    &&& a.users_collections == b.users_collections
    &&& a.ciphers == b.ciphers
    &&& a.ciphers_collections == b.ciphers_collections
    &&& a.folders == b.folders
    &&& a.folders_ciphers == b.folders_ciphers
    &&& a.attachments == b.attachments
    &&& a.failing == b.failing
}

/// `base` stamped with the caller's context and, when it names a cipher,
/// with that cipher's ownership. A cipher id not in `ciphers` is kept as
/// given, with no organization or user.
pub open spec fn spec_enriched(
    base: Event,
    ciphers: Seq<Cipher>,
    cipher_id: Option<String>,
    user: String,
    device_type: i32,
    ip: String,
) -> Event {
    let (org_uuid, user_uuid, cipher_uuid) = match cipher_id {
        None => (base.org_uuid, base.user_uuid, base.cipher_uuid),
        Some(id) => match spec_find_cipher(ciphers, id@) {
            Some(c) => (c.organization_uuid, c.user_uuid, Some(c.uuid)),
            None => (None, None, Some(id)),
        },
    };
    Event {
        org_uuid,
        user_uuid,
        cipher_uuid,
        act_user_uuid: Some(user),
        device_type: Some(device_type),
        ip_address: Some(ip),
        ..base
    }
}

/// A fresh record: only its id, type and date are set.
pub open spec fn spec_bare_event(uuid: String, event_type: i32, event_date: i64) -> Event {
    Event {
        uuid,
        event_type,
        user_uuid: None,
        org_uuid: None,
        cipher_uuid: None,
        collection_uuid: None,
        group_uuid: None,
        org_user_uuid: None,
        act_user_uuid: None,
        device_type: None,
        ip_address: None,
        event_date,
    }
}

/// One occurrence of a submitted batch.
pub struct EventCollection {
    pub type_: i32,
    pub date: String,
    pub cipher_id: Option<String>,
}

/// The record for occurrence `item` under id `id`, dated `date`; `None`
/// when its date did not parse.
pub open spec fn spec_occurrence(
    ciphers: Seq<Cipher>,
    item: EventCollection,
    date: Option<i64>,
    id: String,
    user: String,
    device_type: i32,
    ip: String,
) -> Option<Event> {
    match date {
        Some(d) => Some(
            spec_enriched(spec_bare_event(id, item.type_, d), ciphers, item.cipher_id, user, device_type, ip),
        ),
        None => None,
    }
}

/// The dates of `items` as read from their text.
pub open spec fn parsed_dates(items: Seq<EventCollection>) -> Seq<Option<i64>> {
    items.map_values(|it: EventCollection| parsed_date_millis(it.date@))
}

/// The events after recording the occurrences `items` in turn, the k-th
/// dated `dates[k]` under id `ids[k]`.
pub open spec fn collected(
    events: Seq<Event>,
    ciphers: Seq<Cipher>,
    items: Seq<EventCollection>,
    dates: Seq<Option<i64>>,
    ids: Seq<String>,
    user: String,
    device_type: i32,
    ip: String,
) -> Seq<Event>
    decreases items.len(),
{
    if items.len() == 0 {
        events
    } else {
        let n = items.len() - 1;
        let prev = collected(
            events,
            ciphers,
            items.drop_last(),
            dates.drop_last(),
            ids.drop_last(),
            user,
            device_type,
            ip,
        );
        match spec_occurrence(ciphers, items[n], dates[n], ids[n], user, device_type, ip) {
            Some(e) => upserted(prev, e),
            None => prev,
        }
    }
}

impl EventType {
    pub open spec fn spec_code(self) -> i32 {
        match self {
            EventType::UserLoggedIn => 1000,
            EventType::UserChangedPassword => 1001,
            EventType::UserUpdated2fa => 1002,
            EventType::UserDisabled2fa => 1003,
            EventType::UserRecovered2fa => 1004,
            EventType::UserFailedLogIn => 1005,
            EventType::UserFailedLogIn2fa => 1006,
            EventType::UserClientExportedVault => 1007,
            EventType::CipherCreated => 1100,
            EventType::CipherUpdated => 1101,
            EventType::CipherDeleted => 1102,
            EventType::CipherAttachmentCreated => 1103,
            EventType::CipherAttachmentDeleted => 1104,
            EventType::CipherShared => 1105,
            EventType::CipherUpdatedCollections => 1106,
            EventType::CipherClientViewed => 1107,
            EventType::CipherClientToggledPasswordVisible => 1108,
            EventType::CipherClientToggledHiddenFieldVisible => 1109,
            EventType::CipherClientToggledCardCodeVisible => 1110,
            EventType::CipherClientCopiedPassword => 1111,
            EventType::CipherClientCopiedHiddenField => 1112,
            EventType::CipherClientCopiedCardCode => 1113,
            EventType::CipherClientAutofilled => 1114,
            EventType::CollectionCreated => 1300,
            EventType::CollectionUpdated => 1301,
            EventType::CollectionDeleted => 1302,
            EventType::OrganizationUserInvited => 1500,
            EventType::OrganizationUserConfirmed => 1501,
            EventType::OrganizationUserUpdated => 1502,
            EventType::OrganizationUserRemoved => 1503,
            EventType::OrganizationUserUpdatedGroups => 1504,
            EventType::OrganizationUpdated => 1600,
            EventType::OrganizationPurgedVault => 1601,
        }
    }

    /// The wire code of this event type.
    pub fn code(&self) -> (r: i32)
        ensures
            r == self.spec_code(),
    {
        match self {
            EventType::UserLoggedIn => 1000,
            EventType::UserChangedPassword => 1001,
            EventType::UserUpdated2fa => 1002,
            EventType::UserDisabled2fa => 1003,
            EventType::UserRecovered2fa => 1004,
            EventType::UserFailedLogIn => 1005,
            EventType::UserFailedLogIn2fa => 1006,
            EventType::UserClientExportedVault => 1007,
            EventType::CipherCreated => 1100,
            EventType::CipherUpdated => 1101,
            EventType::CipherDeleted => 1102,
            EventType::CipherAttachmentCreated => 1103,
            EventType::CipherAttachmentDeleted => 1104,
            EventType::CipherShared => 1105,
            EventType::CipherUpdatedCollections => 1106,
            EventType::CipherClientViewed => 1107,
            EventType::CipherClientToggledPasswordVisible => 1108,
            EventType::CipherClientToggledHiddenFieldVisible => 1109,
            EventType::CipherClientToggledCardCodeVisible => 1110,
            EventType::CipherClientCopiedPassword => 1111,
            EventType::CipherClientCopiedHiddenField => 1112,
            EventType::CipherClientCopiedCardCode => 1113,
            EventType::CipherClientAutofilled => 1114,
            EventType::CollectionCreated => 1300,
            EventType::CollectionUpdated => 1301,
            EventType::CollectionDeleted => 1302,
            EventType::OrganizationUserInvited => 1500,
            EventType::OrganizationUserConfirmed => 1501,
            EventType::OrganizationUserUpdated => 1502,
            EventType::OrganizationUserRemoved => 1503,
            EventType::OrganizationUserUpdatedGroups => 1504,
            EventType::OrganizationUpdated => 1600,
            EventType::OrganizationPurgedVault => 1601,
        }
    }
}

impl Event {
    /// A record with the given id, type and date, and nothing else set.
    pub fn with_id(uuid: String, event_type: i32, event_date: i64) -> (r: Event)
        ensures
            r == spec_bare_event(uuid, event_type, event_date),
    {
        Event {
            uuid,
            event_type,
            user_uuid: None,
            org_uuid: None,
            cipher_uuid: None,
            collection_uuid: None,
            group_uuid: None,
            org_user_uuid: None,
            act_user_uuid: None,
            device_type: None,
            ip_address: None,
            event_date,
        }
    }

    /// A record under `uuid`, dated `event_date`, or `now` when none is given.
    pub fn new_at(uuid: String, event_type: i32, event_date: Option<i64>, now: i64) -> (r: Event)
        ensures
            r == spec_bare_event(
                uuid,
                event_type,
                match event_date {
                    Some(d) => d,
                    None => now,
                },
            ),
    {
        let edate = match event_date {
            Some(d) => d,
            None => now,
        };
        Event::with_id(uuid, event_type, edate)
    }

    /// A record with a fresh id, dated `event_date` or else the current time.
    pub fn new(event_type: i32, event_date: Option<i64>) -> (r: Event)
        ensures
            r == spec_bare_event(r.uuid, event_type, r.event_date),
            r.uuid@.len() == 36,
            event_date matches Some(d) ==> r.event_date == d,
    {
        let now = now_millis();
        Event::new_at(new_uuid(), event_type, event_date, now)
    }

    /// Stamps this record with the caller's context and, when `cipher_id`
    /// is given, with the ownership of the cipher it names.
    pub fn enrich(
        self,
        cipher_id: Option<String>,
        user_uuid: &String,
        device_type: i32,
        ip: &String,
        conn: &Store,
    ) -> (r: Event)
        ensures
            r == spec_enriched(self, conn.ciphers@, cipher_id, *user_uuid, device_type, *ip),
    {
        let mut event = self;
        match cipher_id {
            Some(id) => match Cipher::find_by_uuid(id.as_str(), conn) {
                Some(cipher) => {
                    event.org_uuid = cipher.organization_uuid;
                    event.cipher_uuid = Some(cipher.uuid);
                    event.user_uuid = cipher.user_uuid;
                },
                None => {
                    event.org_uuid = None;
                    event.user_uuid = None;
                    event.cipher_uuid = Some(id);
                },
            },
            None => {},
        }
        event.ip_address = Some(ip.clone());
        event.act_user_uuid = Some(user_uuid.clone());
        event.device_type = Some(device_type);
        event
    }

    /// Stores this record by its id: a record with the same id is replaced.
    pub fn save(&self, conn: &mut Store) -> (r: Result<(), VaultError>)
        ensures
            old(conn).wf() ==> final(conn).wf(),
            same_but_events(old(conn), final(conn)),
            r is Err <==> old(conn).spec_fails(Table::Events),
            r matches Err(e) ==> e == VaultError::StoreFailure && *final(conn) == *old(conn),
            r is Ok ==> final(conn).events@ == upserted(old(conn).events@, *self),
    {
        if conn.fails(Table::Events) {
            return Err(VaultError::StoreFailure);
        }
        let ghost before = conn.events@;
        let mut rows = without_key(&conn.events, &self.uuid);
        rows.push(self.cloned());
        conn.events = rows;
        proof {
            if old(conn).wf() {
                crate::store::lemma_upsert_keys_unique(before, *self);
            }
        }
        Ok(())
    }

    /// Removes the records with this record's id.
    pub fn delete(self, conn: &mut Store) -> (r: Result<(), VaultError>)
        ensures
            old(conn).wf() ==> final(conn).wf(),
            same_but_events(old(conn), final(conn)),
            r is Err <==> old(conn).spec_fails(Table::Events),
            r matches Err(e) ==> e == VaultError::StoreFailure && *final(conn) == *old(conn),
            r is Ok ==> final(conn).events@ == old(conn).events@.filter(not_keyed::<Event>(self.uuid@)),
    {
        if conn.fails(Table::Events) {
            return Err(VaultError::StoreFailure);
        }
        let ghost before = conn.events@;
        conn.events = without_key(&conn.events, &self.uuid);
        proof {
            if old(conn).wf() {
                crate::store::lemma_filter_keys_unique(before, not_keyed::<Event>(self.uuid@));
            }
        }
        Ok(())
    }
}

/// Records of organization `org` dated within `[start, end]`.
pub open spec fn of_org_between(org: Seq<char>, start: i64, end: i64) -> spec_fn(Event) -> bool {
    |e: Event| e.org_uuid matches Some(o) && o@ == org && start <= e.event_date <= end
}

/// Records of cipher `cipher` dated within `[start, end]`.
pub open spec fn of_cipher_between(cipher: Seq<char>, start: i64, end: i64) -> spec_fn(Event) -> bool {
    |e: Event| e.cipher_uuid matches Some(c) && c@ == cipher && start <= e.event_date <= end
}

/// Whether `id` equals `x`, when there is one.
fn opt_is(x: &Option<String>, id: &String) -> (r: bool)
    ensures
        r == (x matches Some(v) && v@ == id@),
{
    match x {
        Some(v) => v.eq(id),
        None => false,
    }
}

impl Event {
    /// The records of organization `org_uuid` dated from `start` to `end`
    /// inclusive, in store order.
    pub fn find_by_organization_uuid(org_uuid: &str, start: i64, end: i64, conn: &Store) -> (r: Vec<Event>)
        ensures
            r@ == conn.events@.filter(of_org_between(org_uuid@, start, end)),
    {
        let org = org_uuid.to_owned();
        let rows = &conn.events;
        let pred = Ghost(of_org_between(org_uuid@, start, end));
        let mut out: Vec<Event> = Vec::new();
        let mut j: usize = 0;
        while j < rows.len()
            invariant
                j <= rows.len(),
                rows == &conn.events,
                org@ == org_uuid@,
                pred@ == of_org_between(org_uuid@, start, end),
                out@ == rows@.subrange(0, j as int).filter(pred@),
            decreases rows.len() - j,
        {
            proof {
                assert(rows@.subrange(0, j + 1) =~= rows@.subrange(0, j as int).push(rows@[j as int]));
                rows@.subrange(0, j as int).lemma_filter_push(rows@[j as int], pred@);
            }
            if opt_is(&rows[j].org_uuid, &org) && start <= rows[j].event_date && rows[j].event_date <= end {
                out.push(rows[j].cloned());
            }
            j = j + 1;
        }
        assert(rows@.subrange(0, rows@.len() as int) =~= rows@);
        out
    }

    /// The records of cipher `cipher_uuid` dated from `start` to `end`
    /// inclusive, in store order.
    pub fn find_by_cipher_uuid(cipher_uuid: &str, start: i64, end: i64, conn: &Store) -> (r: Vec<Event>)
        ensures
            r@ == conn.events@.filter(of_cipher_between(cipher_uuid@, start, end)),
    {
        let cipher = cipher_uuid.to_owned();
        let rows = &conn.events;
        let pred = Ghost(of_cipher_between(cipher_uuid@, start, end));
        let mut out: Vec<Event> = Vec::new();
        let mut j: usize = 0;
        while j < rows.len()
            invariant
                j <= rows.len(),
                rows == &conn.events,
                cipher@ == cipher_uuid@,
                pred@ == of_cipher_between(cipher_uuid@, start, end),
                out@ == rows@.subrange(0, j as int).filter(pred@),
            decreases rows.len() - j,
        {
            proof {
                assert(rows@.subrange(0, j + 1) =~= rows@.subrange(0, j as int).push(rows@[j as int]));
                rows@.subrange(0, j as int).lemma_filter_push(rows@[j as int], pred@);
            }
            if opt_is(&rows[j].cipher_uuid, &cipher) && start <= rows[j].event_date && rows[j].event_date <= end {
                out.push(rows[j].cloned());
            }
            j = j + 1;
        }
        assert(rows@.subrange(0, rows@.len() as int) =~= rows@);
        out
    }
}

/// Records an action on cipher `cipher_uuid` by `user_uuid`, from a device
/// of type `device_type` at address `ip`, under a fresh id. The record takes
/// its organization and user from the cipher when the cipher exists.
pub fn new_cipher_event(
    cipher_uuid: &String,
    event_type: i32,
    event_date: i64,
    user_uuid: &String,
    device_type: i32,
    ip: &String,
    conn: &mut Store,
) -> (r: Result<(), VaultError>)
    ensures
        old(conn).wf() ==> final(conn).wf(),
        same_but_events(old(conn), final(conn)),
        r is Err <==> old(conn).spec_fails(Table::Events),
        r matches Err(e) ==> e == VaultError::StoreFailure && *final(conn) == *old(conn),
        r is Ok ==> exists|id: String|
            id@.len() == 36 && final(conn).events@ == #[trigger] upserted(
                old(conn).events@,
                spec_enriched(
                    spec_bare_event(id, event_type, event_date),
                    old(conn).ciphers@,
                    Some(*cipher_uuid),
                    *user_uuid,
                    device_type,
                    *ip,
                ),
            ),
{
    let event = Event::new(event_type, Some(event_date));
    let ghost id = event.uuid;
    let event = event.enrich(Some(cipher_uuid.clone()), user_uuid, device_type, ip, conn);
    let r = event.save(conn);
    assert(r is Ok ==> final(conn).events@ == upserted(
        old(conn).events@,
        spec_enriched(
            spec_bare_event(id, event_type, event_date),
            old(conn).ciphers@,
            Some(*cipher_uuid),
            *user_uuid,
            device_type,
            *ip,
        ),
    ));
    r
}

/// Some occurrence has a date.
pub open spec fn any_dated(dates: Seq<Option<i64>>) -> bool {
    exists|k: int| 0 <= k < dates.len() && (#[trigger] dates[k]) is Some
}

/// Records each occurrence of `data` that has a date, the k-th dated
/// `dates[k]` under id `ids[k]`; occurrences without one are skipped. A
/// store that refuses events fails the whole batch, with nothing recorded.
pub fn collect_events(
    data: &Vec<EventCollection>,
    dates: &Vec<Option<i64>>,
    ids: &Vec<String>,
    user_uuid: &String,
    device_type: i32,
    ip: &String,
    conn: &mut Store,
) -> (r: Result<(), VaultError>)
    requires
        dates@.len() == data@.len(),
        ids@.len() == data@.len(),
    ensures
        old(conn).wf() ==> final(conn).wf(),
        same_but_events(old(conn), final(conn)),
        r is Err <==> old(conn).spec_fails(Table::Events) && any_dated(dates@),
        r matches Err(e) ==> e == VaultError::StoreFailure && *final(conn) == *old(conn),
        r is Ok ==> final(conn).events@ == collected(
            old(conn).events@,
            old(conn).ciphers@,
            data@,
            dates@,
            ids@,
            *user_uuid,
            device_type,
            *ip,
        ),
{
    let ghost ciphers = conn.ciphers@;
    let mut k: usize = 0;
    while k < data.len()
        invariant
            k <= data.len(),
            dates@.len() == data@.len(),
            ids@.len() == data@.len(),
            ciphers == old(conn).ciphers@,
            same_but_events(old(conn), conn),
            conn.events@ == collected(
                old(conn).events@,
                ciphers,
                data@.subrange(0, k as int),
                dates@.subrange(0, k as int),
                ids@.subrange(0, k as int),
                *user_uuid,
                device_type,
                *ip,
            ),
            old(conn).spec_fails(Table::Events) ==> forall|m: int| 0 <= m < k ==> (#[trigger] dates@[m]) is None,
            old(conn).spec_fails(Table::Events) ==> *conn == *old(conn),
            old(conn).wf() ==> conn.wf(),
        decreases data.len() - k,
    {
        proof {
            assert(data@.subrange(0, k + 1).drop_last() =~= data@.subrange(0, k as int));
            assert(dates@.subrange(0, k + 1).drop_last() =~= dates@.subrange(0, k as int));
            assert(ids@.subrange(0, k + 1).drop_last() =~= ids@.subrange(0, k as int));
            assert(data@.subrange(0, k + 1)[k as int] == data@[k as int]);
            assert(dates@.subrange(0, k + 1)[k as int] == dates@[k as int]);
            assert(ids@.subrange(0, k + 1)[k as int] == ids@[k as int]);
        }
        let item = &data[k];
        match dates[k] {
            Some(d) => {
                let base = Event::with_id(ids[k].clone(), item.type_, d);
                let event = base.enrich(clone_opt(&item.cipher_id), user_uuid, device_type, ip, conn);
                match event.save(conn) {
                    Ok(()) => {},
                    Err(e) => {
                        return Err(e);
                    },
                }
            },
            None => {},
        }
        k = k + 1;
    }
    proof {
        assert(data@.subrange(0, data@.len() as int) =~= data@);
        assert(dates@.subrange(0, dates@.len() as int) =~= dates@);
        assert(ids@.subrange(0, ids@.len() as int) =~= ids@);
    }
    Ok(())
}

/// Records a submitted batch of occurrences for `user_uuid`, each under a
/// fresh id and dated by its text. Occurrences with a malformed date are
/// skipped and the others still recorded; a store that refuses events fails
/// the whole batch.
pub fn post_events_collect(
    data: &Vec<EventCollection>,
    user_uuid: &String,
    device_type: i32,
    ip: &String,
    conn: &mut Store,
) -> (r: Result<(), VaultError>)
    ensures
        old(conn).wf() ==> final(conn).wf(),
        same_but_events(old(conn), final(conn)),
        r is Err <==> old(conn).spec_fails(Table::Events) && any_dated(parsed_dates(data@)),
        r matches Err(e) ==> e == VaultError::StoreFailure && *final(conn) == *old(conn),
        r is Ok ==> exists|ids: Seq<String>|
            ids.len() == data@.len() && (forall|k: int| 0 <= k < ids.len() ==> (#[trigger] ids[k])@.len() == 36)
                && final(conn).events@ == #[trigger] collected(
                old(conn).events@,
                old(conn).ciphers@,
                data@,
                parsed_dates(data@),
                ids,
                *user_uuid,
                device_type,
                *ip,
            ),
{
    let mut ids: Vec<String> = Vec::new();
    let mut dates: Vec<Option<i64>> = Vec::new();
    let mut k: usize = 0;
    while k < data.len()
        invariant
            k <= data.len(),
            ids@.len() == k,
            dates@.len() == k,
            forall|m: int| 0 <= m < k ==> (#[trigger] ids@[m])@.len() == 36,
            forall|m: int| 0 <= m < k ==> #[trigger] dates@[m] == parsed_date_millis(data@[m].date@),
        decreases data.len() - k,
    {
        ids.push(new_uuid());
        dates.push(parse_date(data[k].date.as_str()));
        k = k + 1;
    }
    assert(dates@ =~= parsed_dates(data@));
    collect_events(data, &dates, &ids, user_uuid, device_type, ip, conn)
}

/// Records with id `k`.
pub open spec fn keyed(k: Seq<char>) -> spec_fn(Event) -> bool {
    |e: Event| e.uuid@ == k
}

/// Storing two records with the same id leaves exactly one record with that
/// id, the latter.
pub proof fn lemma_upsert_same_id_twice(events: Seq<Event>, first: Event, second: Event)
    requires
        first.uuid@ == second.uuid@,
    ensures
        upserted(upserted(events, first), second).filter(keyed(second.uuid@)) == seq![second],
{
    let p = not_keyed::<Event>(second.uuid@);
    let q = keyed(second.uuid@);
    let t = upserted(events, first).filter(p);
    t.lemma_filter_push(second, q);
    if t.filter(q).len() > 0 {
        let x = t.filter(q)[0];
        t.lemma_filter_pred(q, 0);
        assert(t.filter(q).contains(x));
        t.lemma_filter_contains_rev(q, x);
        let i = choose|i: int| 0 <= i < t.len() && t[i] == x;
        upserted(events, first).lemma_filter_pred(p, i);
    }
    assert(t.filter(q) =~= Seq::<Event>::empty());
    assert(t.filter(q).push(second) =~= seq![second]);
}

/// An occurrence naming a cipher id that no cipher has is recorded with that
/// id and no organization or user; one naming a cipher is recorded with that
/// cipher's owners, when cipher ids are unique.
pub proof fn lemma_enrich_attribution(
    base: Event,
    ciphers: Seq<Cipher>,
    id: String,
    user: String,
    device_type: i32,
    ip: String,
    j: int,
)
    requires
        forall|a: int, b: int| 0 <= a < b < ciphers.len() ==> #[trigger] ciphers[a].uuid@ != #[trigger] ciphers[b].uuid@,
    ensures
        (forall|k: int| 0 <= k < ciphers.len() ==> #[trigger] ciphers[k].uuid@ != id@) ==> {
            let e = spec_enriched(base, ciphers, Some(id), user, device_type, ip);
            &&& e.cipher_uuid == Some(id)
            &&& e.org_uuid is None
            &&& e.user_uuid is None
        },
        0 <= j < ciphers.len() && ciphers[j].uuid@ == id@ ==> {
            let e = spec_enriched(base, ciphers, Some(id), user, device_type, ip);
            &&& e.cipher_uuid == Some(ciphers[j].uuid)
            &&& e.org_uuid == ciphers[j].organization_uuid
            &&& e.user_uuid == ciphers[j].user_uuid
        },
{
    crate::cipher::lemma_find_cipher(ciphers, id@);
    if 0 <= j < ciphers.len() && ciphers[j].uuid@ == id@ {
        let c = spec_find_cipher(ciphers, id@)->0;
        let k = choose|k: int| 0 <= k < ciphers.len() && ciphers[k] == c;
        if k < j {
            assert(ciphers[k].uuid@ != ciphers[j].uuid@);
        } else if j < k {
            assert(ciphers[j].uuid@ != ciphers[k].uuid@);
        }
    }
}

/// When the ids given to a batch are distinct, every occurrence that has a
/// date ends up recorded, whatever the other occurrences hold.
pub proof fn lemma_collected_keeps_dated(
    events: Seq<Event>,
    ciphers: Seq<Cipher>,
    items: Seq<EventCollection>,
    dates: Seq<Option<i64>>,
    ids: Seq<String>,
    user: String,
    device_type: i32,
    ip: String,
)
    requires
        dates.len() == items.len(),
        ids.len() == items.len(),
        forall|a: int, b: int| 0 <= a < b < ids.len() ==> #[trigger] ids[a]@ != #[trigger] ids[b]@,
    ensures
        forall|k: int|
            0 <= k < items.len() && (#[trigger] spec_occurrence(
                ciphers,
                items[k],
                dates[k],
                ids[k],
                user,
                device_type,
                ip,
            )) is Some ==> collected(events, ciphers, items, dates, ids, user, device_type, ip).contains(
                spec_occurrence(ciphers, items[k], dates[k], ids[k], user, device_type, ip)->0,
            ),
    decreases items.len(),
{
    if items.len() > 0 {
        let n = items.len() - 1;
        let pi = items.drop_last();
        let pt = dates.drop_last();
        let pd = ids.drop_last();
        lemma_collected_keeps_dated(events, ciphers, pi, pt, pd, user, device_type, ip);
        let prev = collected(events, ciphers, pi, pt, pd, user, device_type, ip);
        let last = spec_occurrence(ciphers, items[n], dates[n], ids[n], user, device_type, ip);
        assert forall|k: int|
            0 <= k < items.len() && (#[trigger] spec_occurrence(
                ciphers,
                items[k],
                dates[k],
                ids[k],
                user,
                device_type,
                ip,
            )) is Some implies collected(events, ciphers, items, dates, ids, user, device_type, ip).contains(
            spec_occurrence(ciphers, items[k], dates[k], ids[k], user, device_type, ip)->0,
        ) by {
            let x = spec_occurrence(ciphers, items[k], dates[k], ids[k], user, device_type, ip)->0;
            if k < n {
                assert(pi[k] == items[k]);
                assert(pt[k] == dates[k]);
                assert(pd[k] == ids[k]);
                assert(spec_occurrence(ciphers, pi[k], pt[k], pd[k], user, device_type, ip) is Some);
                assert(prev.contains(x));
                if last is Some {
                    let e = last->0;
                    let p = not_keyed::<Event>(e.uuid@);
                    let i = choose|i: int| 0 <= i < prev.len() && prev[i] == x;
                    assert(x.uuid == ids[k]);
                    assert(e.uuid == ids[n]);
                    assert(p(prev[i]));
                    prev.lemma_filter_contains(p, i);
                    let f = prev.filter(p);
                    let m = choose|m: int| 0 <= m < f.len() && f[m] == x;
                    assert(f.push(e)[m] == x);
                }
            } else {
                let e = last->0;
                let f = prev.filter(not_keyed::<Event>(e.uuid@));
                assert(f.push(e)[f.len() as int] == x);
            }
        }
    }
}

} // verus!
