//! Subscribers, their exchange streams, and the registry of live sessions
//! keyed by (user id, stream id).
use vstd::prelude::*;
use crate::fill::{seq_contains, str_contains};
use vstd::string::StringExecFns;

verus! {

/// Credentials for the exchange's private API.
pub struct ByBitReceiver {
    pub api_key: String,
    pub api_secret: String,
}

/// A bot of the third-party trading service that a stream may feed.
pub struct ThreeCommasReceiver {
    pub bot_id: i64,
    pub email_token: String,
}

/// Where a stream's signals go.
pub struct StreamReceivers {
    pub threecommas: ThreeCommasReceiver,
    pub telegram: String,
    pub bybit: ByBitReceiver,
}

/// Trading options of a stream; `leverage` and `order_size` are fixed-point in units of `1 / SCALE`.
pub struct OptValues {
    pub children: bool,
    pub leverage: u64,
    pub order_size: u64,
    pub pyramiding: usize,
}

/// One signal stream that a user configured.
pub struct UserStream {
    pub id: u64,
    pub created_at: String,
    pub active: bool,
    pub description: String,
    pub exchange: String,
    pub opt: OptValues,
    pub receivers: StreamReceivers,
    pub strategy: String,
    pub title: String,
}

pub struct UserSettings {
    pub streams: Vec<UserStream>,
}

/// A subscriber.
pub struct User {
    pub id: String,
    pub created_at: String,
    pub email: String,
    pub free_subscription: bool,
    pub payment_address: String,
    pub settings: UserSettings,
    pub subscriptions: Vec<String>,
    pub subscription_expires_on: String,
    pub subscription_type: String,
    pub telegram_account: String,
    pub updated_at: String,
    pub verified: bool,
}

/// The instant, in milliseconds since the Unix epoch, that chrono's RFC 3339
/// parsing into `DateTime<Utc>` reads from `s`, or `None` when it rejects `s`.
pub uninterp spec fn rfc3339_millis(s: Seq<char>) -> Option<int>;

/// Relies on chrono's `FromStr` for `DateTime<Utc>` (RFC 3339) and `timestamp_millis`.
#[verifier::external_body]
fn parse_instant(s: &str) -> (r: Option<i64>)
    ensures
        match r {
            Some(t) => rfc3339_millis(s@) == Some(t as int),
            None => rfc3339_millis(s@).is_none(),
        },
{
    match s.parse::<chrono::DateTime<chrono::Utc>>() {
        Ok(d) => Some(d.timestamp_millis()),
        Err(_) => None,
    }
}

/// Whether a subscription that ends at `expires_at` (if known) has ended at `now`.
pub fn expired_at(expires_at: Option<i64>, now: i64) -> (r: Option<bool>)
    ensures
        match expires_at {
            Some(t) => r == Some(t < now),
            None => r.is_none(),
        },
{
    match expires_at {
        Some(t) => Some(t < now),
        None => None,
    }
}

/// The stream key: (user id, stream id).
pub open spec fn key_of(user_id: Seq<char>, stream_id: u64) -> (Seq<char>, u64) {
    (user_id, stream_id)
}

impl User {
    /// Whether the subscription has ended at `now` (milliseconds since the Unix
    /// epoch); `None` when its end date is not an RFC 3339 date-time.
    pub fn has_subscription_expired(&self, now: i64) -> (r: Option<bool>)
        ensures
            match rfc3339_millis(self.subscription_expires_on@) {
                Some(t) => r == Some(t < now),
                None => r.is_none(),
            },
    {
        expired_at(parse_instant(self.subscription_expires_on.as_str()), now)
    }

    /// The streams that follow `strategy`, in order.
    pub fn get_streams(&self, strategy: &String) -> (r: Vec<UserStream>)
        ensures
            r@ == streams_following(self.settings.streams@, strategy@),
    {
        let streams = &self.settings.streams;
        let mut out: Vec<UserStream> = Vec::new();
        let mut i: usize = 0;
        while i < streams.len()
            invariant
                i <= streams@.len(),
                out@ == streams_following(streams@.take(i as int), strategy@),
            decreases streams@.len() - i,
        {
            proof {
                assert(streams@.take(i + 1).drop_last() =~= streams@.take(i as int));
            }
            if streams[i].strategy == *strategy {
                out.push(streams[i].duplicate());
            }
            i = i + 1;
        }
        assert(streams@.take(i as int) =~= streams@);
        out
    }
}

impl UserStream {
    /// A field-by-field copy.
    pub fn duplicate(&self) -> (r: UserStream)
        ensures
            r == *self,
    {
        UserStream {
            id: self.id,
            created_at: self.created_at.clone(),
            active: self.active,
            description: self.description.clone(),
            exchange: self.exchange.clone(),
            opt: OptValues {
                children: self.opt.children,
                leverage: self.opt.leverage,
                order_size: self.opt.order_size,
                pyramiding: self.opt.pyramiding,
            },
            receivers: StreamReceivers {
                threecommas: ThreeCommasReceiver {
                    bot_id: self.receivers.threecommas.bot_id,
                    email_token: self.receivers.threecommas.email_token.clone(),
                },
                telegram: self.receivers.telegram.clone(),
                bybit: ByBitReceiver {
                    api_key: self.receivers.bybit.api_key.clone(),
                    api_secret: self.receivers.bybit.api_secret.clone(),
                },
            },
            strategy: self.strategy.clone(),
            title: self.title.clone(),
        }
    }
}

/// The streams of `s` whose strategy is `strategy`, in order.
pub open spec fn streams_following(s: Seq<UserStream>, strategy: Seq<char>) -> Seq<UserStream>
    decreases s.len(),
{
    if s.len() == 0 {
        Seq::empty()
    } else {
        let prev = streams_following(s.drop_last(), strategy);
        if s.last().strategy@ == strategy {
            prev.push(s.last())
        } else {
            prev
        }
    }
}

/// The exchange these sessions are for, as streams name it.
pub open spec fn bybit_name() -> Seq<char> {
    seq!['B', 'Y', 'B', 'I', 'T']
}

/// A session key and the value held for it.
pub struct Entry<V> {
    pub user_id: String,
    pub stream_id: u64,
    pub value: V,
}

/// A map keyed by (user id, stream id), holding each key once; a later
/// insertion for a key replaces the earlier value.
pub struct Registry<V> {
    pub entries: Vec<Entry<V>>,
}

impl<V> Registry<V> {
    pub open spec fn wf(&self) -> bool {
        forall|i: int, j: int|
            0 <= i < j < self.entries@.len() ==> key_of(self.entries@[i].user_id@, self.entries@[i].stream_id)
                != key_of(self.entries@[j].user_id@, self.entries@[j].stream_id)
    }

    pub open spec fn view(&self) -> Map<(Seq<char>, u64), V> {
        Map::new(
            |k: (Seq<char>, u64)| exists|i: int| 0 <= i < self.entries@.len() && key_of(self.entries@[i].user_id@, self.entries@[i].stream_id) == k,
            |k: (Seq<char>, u64)| {
                let i = choose|i: int| 0 <= i < self.entries@.len() && key_of(self.entries@[i].user_id@, self.entries@[i].stream_id) == k;
                self.entries@[i].value
            },
        )
    }

    pub fn new() -> (r: Registry<V>)
        ensures
            r.wf(),
            r@ == Map::<(Seq<char>, u64), V>::empty(),
    {
        let r = Registry { entries: Vec::new() };
        assert(r@ =~= Map::<(Seq<char>, u64), V>::empty());
        r
    }

    pub fn len(&self) -> (r: usize)
        requires
            self.wf(),
        ensures
            r == self@.len(),
    {
        proof {
            self.lemma_len();
        }
        self.entries.len()
    }

    proof fn lemma_len(&self)
        requires
            self.wf(),
        ensures
            self@.len() == self.entries@.len(),
    {
        let keys = self.entries@.map_values(|e: Entry<V>| key_of(e.user_id@, e.stream_id));
        assert(keys.no_duplicates());
        keys.unique_seq_to_set();
        assert(self@.dom() =~= keys.to_set()) by {
            assert forall|k| self@.dom().contains(k) implies keys.to_set().contains(k) by {
                let i = choose|i: int| 0 <= i < self.entries@.len() && key_of(self.entries@[i].user_id@, self.entries@[i].stream_id) == k;
                assert(keys[i] == k);
            }
            assert forall|k| keys.to_set().contains(k) implies self@.dom().contains(k) by {
                let i = choose|i: int| 0 <= i < keys.len() && keys[i] == k;
                assert(key_of(self.entries@[i].user_id@, self.entries@[i].stream_id) == k);
            }
        }
    }

    /// Position of the entry for a key, if any.
    fn find(&self, user_id: &String, stream_id: u64) -> (r: Option<usize>)
        requires
            self.wf(),
        ensures
            match r {
                Some(i) => i < self.entries@.len() && key_of(self.entries@[i as int].user_id@, self.entries@[i as int].stream_id)
                    == key_of(user_id@, stream_id),
                None => !self@.contains_key(key_of(user_id@, stream_id)),
            },
    {
        let mut i: usize = 0;
        while i < self.entries.len()
            invariant
                i <= self.entries@.len(),
                forall|j: int| 0 <= j < i ==> key_of(self.entries@[j].user_id@, self.entries@[j].stream_id) != key_of(user_id@, stream_id),
            decreases self.entries@.len() - i,
        {
            if self.entries[i].stream_id == stream_id && self.entries[i].user_id == *user_id {
                return Some(i);
            }
            i = i + 1;
        }
        None
    }

    /// Sets the value for a key, replacing any earlier one.
    pub fn upsert(&mut self, user_id: String, stream_id: u64, value: V)
        requires
            old(self).wf(),
        ensures
            final(self).wf(),
            final(self)@ == old(self)@.insert(key_of(user_id@, stream_id), value),
    {
        let ghost k = key_of(user_id@, stream_id);
        let ghost old_entries = self.entries@;
        match self.find(&user_id, stream_id) {
            Some(i) => {
                self.entries.set(i, Entry { user_id, stream_id, value });
                proof {
                    assert forall|kk| #[trigger] self@.contains_key(kk) == old(self)@.insert(k, value).contains_key(kk) by {
                        if old(self)@.contains_key(kk) && kk != k {
                            let j = choose|j: int| 0 <= j < old_entries.len() && key_of(old_entries[j].user_id@, old_entries[j].stream_id) == kk;
                            assert(self.entries@[j] == old_entries[j]);
                        }
                        if self@.contains_key(kk) && kk != k {
                            let j = choose|j: int| 0 <= j < self.entries@.len() && key_of(self.entries@[j].user_id@, self.entries@[j].stream_id) == kk;
                            assert(j != i);
                            assert(self.entries@[j] == old_entries[j]);
                        }
                        assert(key_of(self.entries@[i as int].user_id@, self.entries@[i as int].stream_id) == k);
                    }
                    assert forall|kk| #[trigger] self@.contains_key(kk) implies self@[kk] == old(self)@.insert(k, value)[kk] by {
                        let j = choose|j: int| 0 <= j < self.entries@.len() && key_of(self.entries@[j].user_id@, self.entries@[j].stream_id) == kk;
                        if kk == k {
                            assert(j == i);
                        } else {
                            assert(old_entries[j] == self.entries@[j]);
                            let j2 = choose|j2: int| 0 <= j2 < old_entries.len() && key_of(old_entries[j2].user_id@, old_entries[j2].stream_id) == kk;
                            assert(j2 == j);
                        }
                    }
                    assert(self@ =~= old(self)@.insert(k, value));
                }
            },
            None => {
                self.entries.push(Entry { user_id, stream_id, value });
                proof {
                    let n = old_entries.len() as int;
                    assert forall|kk| #[trigger] self@.contains_key(kk) == old(self)@.insert(k, value).contains_key(kk) by {
                        if old(self)@.contains_key(kk) {
                            let j = choose|j: int| 0 <= j < old_entries.len() && key_of(old_entries[j].user_id@, old_entries[j].stream_id) == kk;
                            assert(self.entries@[j] == old_entries[j]);
                        }
                        if self@.contains_key(kk) && kk != k {
                            let j = choose|j: int| 0 <= j < self.entries@.len() && key_of(self.entries@[j].user_id@, self.entries@[j].stream_id) == kk;
                            if j < n {
                                assert(self.entries@[j] == old_entries[j]);
                            }
                        }
                        assert(key_of(self.entries@[n].user_id@, self.entries@[n].stream_id) == k);
                    }
                    assert forall|kk| #[trigger] self@.contains_key(kk) implies self@[kk] == old(self)@.insert(k, value)[kk] by {
                        let j = choose|j: int| 0 <= j < self.entries@.len() && key_of(self.entries@[j].user_id@, self.entries@[j].stream_id) == kk;
                        if kk == k {
                            if j < n {
                                assert(self.entries@[j] == old_entries[j]);
                            }
                            assert(j == n);
                        } else {
                            assert(j < n);
                            assert(old_entries[j] == self.entries@[j]);
                            let j2 = choose|j2: int| 0 <= j2 < old_entries.len() && key_of(old_entries[j2].user_id@, old_entries[j2].stream_id) == kk;
                            assert(j2 == j);
                        }
                    }
                    assert(self@ =~= old(self)@.insert(k, value));
                }
            },
        }
    }
}

/// API key and secret of a stream's exchange account.
pub open spec fn credentials_of(s: UserStream) -> (String, String) {
    (s.receivers.bybit.api_key, s.receivers.bybit.api_secret)
}

/// `m` after recording, in order, the exchange credentials of each active
/// exchange stream of `s` owned by `user_id`.
pub open spec fn add_streams(
    m: Map<(Seq<char>, u64), (String, String)>,
    user_id: Seq<char>,
    s: Seq<UserStream>,
) -> Map<(Seq<char>, u64), (String, String)>
    decreases s.len(),
{
    if s.len() == 0 {
        m
    } else {
        let prev = add_streams(m, user_id, s.drop_last());
        if s.last().active && s.last().exchange@ == bybit_name() {
            prev.insert(key_of(user_id, s.last().id), credentials_of(s.last()))
        } else {
            prev
        }
    }
}

/// The credentials of every active exchange stream of `users`; for a key seen twice, the later wins.
pub open spec fn credentials_map(users: Seq<User>) -> Map<(Seq<char>, u64), (String, String)>
    decreases users.len(),
{
    if users.len() == 0 {
        Map::empty()
    } else {
        add_streams(credentials_map(users.drop_last()), users.last().id@, users.last().settings.streams@)
    }
}

/// The (key, secret) of each active exchange stream of `users`, keyed by (user id, stream id).
pub fn get_users_bybit_streams(users: &Vec<User>) -> (r: Registry<(String, String)>)
    ensures
        r.wf(),
        r@ == credentials_map(users@),
{
    let bybit = String::from_str("BYBIT");
    proof {
        reveal_strlit("BYBIT");
        assert(bybit@ =~= bybit_name());
    }
    let mut result: Registry<(String, String)> = Registry::new();
    let mut i: usize = 0;
    while i < users.len()
        invariant
            i <= users@.len(),
            bybit@ == bybit_name(),
            result.wf(),
            result@ == credentials_map(users@.take(i as int)),
        decreases users@.len() - i,
    {
        let user = &users[i];
        let streams = &user.settings.streams;
        let ghost base = result@;
        proof {
            assert(users@.take(i + 1).drop_last() =~= users@.take(i as int));
        }
        let mut j: usize = 0;
        while j < streams.len()
            invariant
                i < users@.len(),
                user == users@[i as int],
                streams == user.settings.streams,
                j <= streams@.len(),
                bybit@ == bybit_name(),
                result.wf(),
                result@ == add_streams(base, user.id@, streams@.take(j as int)),
            decreases streams@.len() - j,
        {
            proof {
                assert(streams@.take(j + 1).drop_last() =~= streams@.take(j as int));
            }
            let stream = &streams[j];
            if stream.active && stream.exchange == bybit {
                let creds = (stream.receivers.bybit.api_key.clone(), stream.receivers.bybit.api_secret.clone());
                result.upsert(user.id.clone(), stream.id, creds);
            }
            j = j + 1;
        }
        assert(streams@.take(j as int) =~= streams@);
        i = i + 1;
    }
    assert(users@.take(i as int) =~= users@);
    result
}

/// A message is forwarded when it carries an execution marker.
pub open spec fn carries_execution(message: Seq<char>) -> bool {
    seq_contains(message, seq!['o', 'r', 'd', 'e', 'r', '_', 'i', 'd'])
}

/// Whether a message read from a session goes on to the stream.
pub fn should_forward(message: &str) -> (r: bool)
    ensures
        r == carries_execution(message@),
{
    let marker = "order_id";
    proof {
        reveal_strlit("order_id");
        assert(marker@ =~= seq!['o', 'r', 'd', 'e', 'r', '_', 'i', 'd']);
    }
    str_contains(message, marker)
}

} // verus!
