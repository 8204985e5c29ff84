use base64::Engine;
use vstd::prelude::*;

use crate::cache::{lookup, Cache, CacheTTL};
use crate::clock::{new_uuid_text, now_micros};
use crate::errors::{SentinelError, SentinelResult};
use crate::hierarchy::opt_view;
use crate::json::{lemma_zookie_text_round_trip, parse_zookie_text, read_zookie, write_zookie, zookie_text};

verus! {

/// The mathematical content of a zookie: its timestamp and, when present,
/// the node id and transaction id.
pub type ZookieModel = (i64, Option<(Option<Seq<char>>, Option<Seq<char>>)>);

/// A consistency token: a point in time in microseconds since the epoch.
/// Zookies are ordered by their timestamps alone.
#[derive(Debug, Clone)]
pub struct Zookie {
    pub timestamp_micros: i64,
    pub metadata: Option<ZookieMetadata>,
}

/// Where and in which transaction a zookie was issued.
#[derive(Debug, Clone)]
pub struct ZookieMetadata {
    pub node_id: Option<String>,
    pub transaction_id: Option<String>,
}

impl ZookieMetadata {
    pub open spec fn view(&self) -> (Option<Seq<char>>, Option<Seq<char>>) {
        (opt_view(self.node_id), opt_view(self.transaction_id))
    }
}

impl Zookie {
    pub open spec fn view(&self) -> ZookieModel {
        (
            self.timestamp_micros,
            match self.metadata {
                Some(m) => Some(m.view()),
                None => None,
            },
        )
    }
}

/// The padded standard base64 text of some bytes.
pub uninterp spec fn base64_of(b: Seq<u8>) -> Seq<char>;

/// The bytes that a padded standard base64 text stands for, if it is one.
pub uninterp spec fn base64_decoded(s: Seq<char>) -> Option<Seq<u8>>;

/// Relies on base64's `STANDARD` engine `encode`: padded standard-alphabet
/// text, which `decode` on the same engine turns back into the same bytes.
#[verifier::external_body]
fn base64_encode(b: &[u8]) -> (r: String)
    ensures
        r@ == base64_of(b@),
        base64_decoded(r@) == Some(b@),
{
    base64::engine::general_purpose::STANDARD.encode(b)
}

/// Relies on base64's `STANDARD` engine `decode`: the bytes that `s` stands
/// for, or an error when `s` is not padded standard base64.
#[verifier::external_body]
fn base64_decode(s: &str) -> (r: Option<Vec<u8>>)
    ensures
        match r {
            Some(v) => base64_decoded(s@) == Some(v@),
            None => base64_decoded(s@) is None,
        },
{
    base64::engine::general_purpose::STANDARD.decode(s).ok()
}

/// The zookie that a token stands for: base64 of the zookie's JSON text.
pub open spec fn decode_token(token: Seq<char>) -> Option<ZookieModel> {
    match base64_decoded(token) {
        Some(b) => parse_zookie_text(b),
        None => None,
    }
}

/// The oldest a client token may be: one hour, in microseconds.
pub const MAX_ZOOKIE_AGE_MICROS: i64 = 3_600_000_000;

/// The cache slot of the latest issued token.
pub open spec fn latest_zookie_key() -> Seq<char> {
    "zookie:latest"@
}

/// A client token is acceptable at `now`: not from the future, at most an hour old.
pub open spec fn snapshot_acceptable(timestamp_micros: i64, now: i64) -> bool {
    timestamp_micros <= now && now - timestamp_micros <= MAX_ZOOKIE_AGE_MICROS
}

impl Zookie {
    /// A zookie for the current time.
    pub fn new() -> (r: Self)
        ensures
            r.metadata is None,
    {
        Zookie { timestamp_micros: now_micros(), metadata: None }
    }

    /// A zookie for the current time, with `metadata`.
    pub fn with_metadata(metadata: ZookieMetadata) -> (r: Self)
        ensures
            r.metadata == Some(metadata),
    {
        Zookie { timestamp_micros: now_micros(), metadata: Some(metadata) }
    }

    pub fn from_timestamp(timestamp_micros: i64) -> (r: Self)
        ensures
            r.timestamp_micros == timestamp_micros,
            r.metadata is None,
    {
        Zookie { timestamp_micros, metadata: None }
    }

    /// The token of this zookie: base64 of its JSON text. It never fails.
    pub fn to_string(&self) -> (r: SentinelResult<String>)
        ensures
            r matches Ok(s) && s@ == base64_of(zookie_text(self.view())),
            r matches Ok(s) ==> base64_decoded(s@) == Some(zookie_text(self.view())),
    {
        let json = write_zookie(self);
        Ok(base64_encode(json.as_slice()))
    }

    /// The zookie that `encoded` stands for; a malformed token is a validation error.
    pub fn from_string(encoded: &str) -> (r: SentinelResult<Zookie>)
        ensures
            match r {
                Ok(z) => decode_token(encoded@) == Some(z.view()),
                Err(e) => decode_token(encoded@) is None && e is ValidationError,
            },
    {
        match base64_decode(encoded) {
            None => Err(SentinelError::validation_error("Invalid zookie encoding")),
            Some(bytes) => match read_zookie(bytes.as_slice()) {
                Some(z) => Ok(z),
                None => Err(SentinelError::validation_error("Invalid zookie format")),
            },
        }
    }

    /// -1, 0 or 1 as this zookie is older than, as old as, or newer than `other`.
    pub fn compare_timestamp(&self, other: &Zookie) -> (r: i8)
        ensures
            r == (if self.timestamp_micros < other.timestamp_micros {
                -1i8
            } else if self.timestamp_micros > other.timestamp_micros {
                1i8
            } else {
                0i8
            }),
    {
        if self.timestamp_micros < other.timestamp_micros {
            -1
        } else if self.timestamp_micros > other.timestamp_micros {
            1
        } else {
            0
        }
    }

    pub fn is_newer_than(&self, other: &Zookie) -> (r: bool)
        ensures
            r == (self.timestamp_micros > other.timestamp_micros),
    {
        self.timestamp_micros > other.timestamp_micros
    }

    pub fn is_at_least(&self, other: &Zookie) -> (r: bool)
        ensures
            r == (self.timestamp_micros >= other.timestamp_micros),
    {
        self.timestamp_micros >= other.timestamp_micros
    }
}

impl Default for Zookie {
    /// A zookie for the current time.
    fn default() -> (r: Self)
        ensures
            r.metadata is None,
    {
        Zookie::new()
    }
}

/// Issues strictly increasing zookies and judges the ones clients present.
#[derive(Debug)]
pub struct ZookieManager {
    last_timestamp: i64,
    node_id: String,
}

impl ZookieManager {
    /// The last timestamp issued, or the clock reading at construction.
    pub closed spec fn last_issued(&self) -> i64 {
        self.last_timestamp
    }

    /// The node id written into issued zookies.
    pub closed spec fn node(&self) -> Seq<char> {
        self.node_id@
    }

    /// A manager for `node_id` whose counter starts at the current time.
    pub fn new(node_id: String) -> (r: Self)
        ensures
            r.node() == node_id@,
    {
        ZookieManager::starting_at(node_id, now_micros())
    }

    /// A manager for `node_id` whose counter starts at `last_timestamp`.
    pub fn starting_at(node_id: String, last_timestamp: i64) -> (r: Self)
        ensures
            r.node() == node_id@,
            r.last_issued() == last_timestamp,
    {
        ZookieManager { last_timestamp, node_id }
    }

    /// The next stamp for a clock reading `now`: `now` when it is past the last
    /// stamp, else one more than the last stamp. Fails only when the counter is spent.
    pub fn next_timestamp(&mut self, now: i64) -> (r: SentinelResult<i64>)
        ensures
            final(self).node() == old(self).node(),
            match r {
                Ok(t) => {
                    &&& t > old(self).last_issued()
                    &&& final(self).last_issued() == t
                    &&& t == (if now > old(self).last_issued() {
                        now as int
                    } else {
                        old(self).last_issued() + 1
                    })
                },
                Err(e) => {
                    &&& now <= old(self).last_issued()
                    &&& old(self).last_issued() == i64::MAX
                    &&& final(self).last_issued() == old(self).last_issued()
                    &&& e is InternalError
                },
            },
    {
        if now > self.last_timestamp {
            self.last_timestamp = now;
            Ok(now)
        } else if self.last_timestamp < i64::MAX {
            self.last_timestamp = self.last_timestamp + 1;
            Ok(self.last_timestamp)
        } else {
            Err(SentinelError::internal_error("Zookie counter exhausted"))
        }
    }

    /// Issues a zookie later than every one issued before, with this node's id
    /// and a fresh transaction id. Fails only when the counter is spent.
    pub fn issue_zookie(&mut self) -> (r: SentinelResult<Zookie>)
        ensures
            final(self).node() == old(self).node(),
            match r {
                Ok(z) => {
                    &&& z.timestamp_micros > old(self).last_issued()
                    &&& final(self).last_issued() == z.timestamp_micros
                    &&& z.metadata matches Some(m) && opt_view(m.node_id) == Some(old(self).node())
                    &&& z.metadata matches Some(m) && m.transaction_id is Some
                },
                Err(e) => {
                    &&& old(self).last_issued() == i64::MAX
                    &&& final(self).last_issued() == i64::MAX
                    &&& e is InternalError
                },
            },
    {
        let now = now_micros();
        let timestamp_micros = match self.next_timestamp(now) {
            Ok(t) => t,
            Err(e) => return Err(e),
        };
        Ok(
            Zookie {
                timestamp_micros,
                metadata: Some(
                    ZookieMetadata {
                        node_id: Some(self.node_id.clone()),
                        transaction_id: Some(new_uuid_text()),
                    },
                ),
            },
        )
    }

    /// Writes the token of `zookie` to the cache's latest-zookie slot.
    pub fn cache_latest_zookie<C: Cache>(cache: &mut C, zookie: &Zookie) -> (r: SentinelResult<()>)
        ensures
            old(cache).reliable() ==> r is Ok,
            r is Ok ==> final(cache).entries() == old(cache).entries().insert(
                latest_zookie_key(),
                base64_of(zookie_text(zookie.view())),
            ),
            r is Ok ==> final(cache).ttls() == old(cache).ttls().insert(latest_zookie_key(), 3600),
            old(cache).reliable() ==> final(cache).reliable(),
            (final(cache).entries() == old(cache).entries() && final(cache).ttls() == old(cache).ttls())
                || (final(cache).entries() == old(cache).entries().insert(latest_zookie_key(), base64_of(zookie_text(zookie.view())))
                && final(cache).ttls() == old(cache).ttls().insert(latest_zookie_key(), 3600)),
    {
        let token = match zookie.to_string() {
            Ok(t) => t,
            Err(e) => return Err(e),
        };
        cache.set("zookie:latest", token.as_str(), CacheTTL::LATEST_ZOOKIE)
    }

    /// Issues a zookie and records its token in the cache's latest-zookie slot;
    /// fails when the counter is spent or the cache write fails.
    pub fn generate_zookie<C: Cache>(&mut self, cache: &mut C) -> (r: SentinelResult<Zookie>)
        ensures
            final(self).node() == old(self).node(),
            r matches Ok(z) ==> z.timestamp_micros > old(self).last_issued() && final(self).last_issued() == z.timestamp_micros && final(cache).entries() == old(cache).entries().insert(latest_zookie_key(), base64_of(zookie_text(z.view()))),
            old(self).last_issued() == i64::MAX ==> (r matches Err(e) && e is InternalError),
            old(cache).reliable() && old(self).last_issued() < i64::MAX ==> r is Ok,
            r is Ok ==> final(cache).ttls() == old(cache).ttls().insert(latest_zookie_key(), 3600),
            r matches Ok(z) ==> (z.metadata matches Some(m) && opt_view(m.node_id) == Some(old(self).node())
                && m.transaction_id is Some),
            r is Err ==> final(cache).entries() == old(cache).entries() || exists|z: ZookieModel|
                final(cache).entries() == old(cache).entries().insert(
                    latest_zookie_key(),
                    base64_of(zookie_text(z)),
                ),
    {
        let zookie = match self.issue_zookie() {
            Ok(z) => z,
            Err(e) => return Err(e),
        };
        match ZookieManager::cache_latest_zookie(cache, &zookie) {
            Ok(()) => Ok(zookie),
            Err(e) => Err(e),
        }
    }

    /// Issues a zookie and records its token in the latest-zookie slot as far
    /// as the cache allows: a cache failure does not fail the issue.
    pub fn issue_and_record<C: Cache>(&mut self, cache: &mut C) -> (r: SentinelResult<Zookie>)
        ensures
            old(cache).reliable() ==> final(cache).reliable(),
            final(self).node() == old(self).node(),
            match r {
                Ok(z) => z.timestamp_micros > old(self).last_issued() && final(self).last_issued()
                    == z.timestamp_micros,
                Err(e) => old(self).last_issued() == i64::MAX && e is InternalError
                    && final(self).last_issued() == i64::MAX,
            },
            (final(cache).entries() == old(cache).entries() && final(cache).ttls() == old(cache).ttls()) || (r matches Ok(z)
                && final(cache).entries() == old(cache).entries().insert(latest_zookie_key(), base64_of(zookie_text(z.view())))
                && final(cache).ttls() == old(cache).ttls().insert(latest_zookie_key(), 3600)),
    {
        let zookie = match self.issue_zookie() {
            Ok(z) => z,
            Err(e) => return Err(e),
        };
        let _ = ZookieManager::cache_latest_zookie(cache, &zookie);
        Ok(zookie)
    }

    /// Judges a client token at clock reading `now`.
    pub fn check_snapshot(zookie: Zookie, now: i64) -> (r: SentinelResult<Zookie>)
        ensures
            r is Ok <==> snapshot_acceptable(zookie.timestamp_micros, now),
            r matches Ok(z) ==> z == zookie,
            r matches Err(e) ==> e is ValidationError,
    {
        if zookie.timestamp_micros > now {
            return Err(SentinelError::validation_error("Future zookie not allowed"));
        }
        if (now as i128) - (zookie.timestamp_micros as i128) > MAX_ZOOKIE_AGE_MICROS as i128 {
            return Err(SentinelError::validation_error("Stale zookie"));
        }
        Ok(zookie)
    }

    /// The snapshot a read runs at: the client's token when it is well formed,
    /// not from the future and at most an hour old; a fresh zookie when there is none.
    pub fn validate_and_get_snapshot_time<C: Cache>(
        &mut self,
        cache: &mut C,
        request_zookie: Option<&str>,
    ) -> (r: SentinelResult<Zookie>)
        ensures
            old(cache).reliable() ==> final(cache).reliable(),
            final(self).node() == old(self).node(),
            match request_zookie {
                Some(token) => {
                    &&& final(self).last_issued() == old(self).last_issued()
                    &&& r matches Ok(z) ==> decode_token(token@) == Some(z.view())
                    &&& decode_token(token@) is None ==> r is Err
                    &&& r matches Err(e) ==> e is ValidationError
                },
                None => match r {
                    Ok(z) => z.timestamp_micros > old(self).last_issued()
                        && final(self).last_issued() == z.timestamp_micros,
                    Err(e) => old(self).last_issued() == i64::MAX && e is InternalError,
                },
            },
            request_zookie is Some ==> final(cache).entries() == old(cache).entries() && final(cache).ttls() == old(cache).ttls(),
            (final(cache).entries() == old(cache).entries() && final(cache).ttls() == old(cache).ttls()) || (r matches Ok(z)
                && final(cache).entries() == old(cache).entries().insert(latest_zookie_key(), base64_of(zookie_text(z.view())))
                && final(cache).ttls() == old(cache).ttls().insert(latest_zookie_key(), 3600)),
    {
        match request_zookie {
            Some(token) => {
                let zookie = match Zookie::from_string(token) {
                    Ok(z) => z,
                    Err(e) => return Err(e),
                };
                let now = now_micros();
                ZookieManager::check_snapshot(zookie, now)
            },
            None => self.issue_and_record(cache),
        }
    }

    /// The zookie in the cache's latest-zookie slot, if it holds a well-formed token.
    pub fn get_latest_cached_zookie<C: Cache>(&self, cache: &C) -> (r: SentinelResult<
        Option<Zookie>,
    >)
        ensures
            cache.reliable() ==> r is Ok,
            r matches Ok(Some(z)) ==> (lookup(cache.entries(), latest_zookie_key()) matches Some(t)
                && decode_token(t) == Some(z.view())),
            r matches Ok(None) ==> match lookup(cache.entries(), latest_zookie_key()) {
                Some(t) => decode_token(t) is None,
                None => true,
            },
    {
        match cache.get("zookie:latest") {
            Err(e) => Err(e),
            Ok(None) => Ok(None),
            Ok(Some(token)) => match Zookie::from_string(token.as_str()) {
                Ok(z) => Ok(Some(z)),
                Err(_) => Ok(None),
            },
        }
    }

    pub fn create_snapshot_zookie(&self, timestamp_micros: i64) -> (r: Zookie)
        ensures
            r.timestamp_micros == timestamp_micros,
            r.metadata is None,
    {
        Zookie::from_timestamp(timestamp_micros)
    }

    /// Whether a read at `read_zookie` observes a write at `write_zookie`; with no
    /// read token, whether the clock has reached the write.
    /// Whether a read observes a write at `write_micros`: a read at
    /// `read_micros` when it has a token, else a read at clock reading `now`.
    pub fn consistent_at(write_micros: i64, read_micros: Option<i64>, now: i64) -> (r: bool)
        ensures
            r == match read_micros {
                Some(t) => t >= write_micros,
                None => now >= write_micros,
            },
    {
        match read_micros {
            Some(t) => t >= write_micros,
            None => now >= write_micros,
        }
    }

    pub fn ensure_consistency_after_write(
        &self,
        write_zookie: &Zookie,
        read_zookie: Option<&Zookie>,
    ) -> (r: SentinelResult<bool>)
        ensures
            r is Ok,
            read_zookie matches Some(rz) ==> r == Ok::<bool, SentinelError>(
                rz.timestamp_micros >= write_zookie.timestamp_micros,
            ),
    {
        let read_micros = match read_zookie {
            Some(rz) => Some(rz.timestamp_micros),
            None => None,
        };
        let now = now_micros();
        Ok(ZookieManager::consistent_at(write_zookie.timestamp_micros, read_micros, now))
    }
}

} // verus!
