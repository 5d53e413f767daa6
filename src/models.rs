//! Records shared by the repository, the dispatcher and the request layer.
use vstd::prelude::*;
use crate::geohash::keys_of;

verus! {

/// Threshold given to a subscription whose request names none.
pub const DEFAULT_MIN_INTENSITY: u8 = 3;

/// A push target with its location (in 1e-7 degree) and the least estimated
/// intensity (0 to 7) it wants to hear about.
#[derive(Debug, Clone)]
pub struct Subscription {
    pub bark_id: String,
    pub latitude: i64,
    pub longitude: i64,
    pub min_intensity: u8,
    pub created_at: i64,
}

impl Subscription {
    /// A subscription created at `created_at` (milliseconds since the Unix epoch).
    pub fn new(bark_id: String, latitude: i64, longitude: i64, min_intensity: u8, created_at: i64) -> (r: Self)
        ensures
            r.bark_id == bark_id,
            r.latitude == latitude,
            r.longitude == longitude,
            r.min_intensity == min_intensity,
            r.created_at == created_at,
    {
        Subscription { bark_id, latitude, longitude, min_intensity, created_at }
    }

    /// A field-by-field copy.
    pub fn duplicate(&self) -> (r: Self)
        ensures
            r == *self,
    {
        Subscription {
            bark_id: self.bark_id.clone(),
            latitude: self.latitude,
            longitude: self.longitude,
            min_intensity: self.min_intensity,
            created_at: self.created_at,
        }
    }
}

/// A subscription request as received, coordinates in 1e-7 degree.
#[derive(Debug, Clone)]
pub struct SubscribeRequest {
    pub bark_id: String,
    pub latitude: i64,
    pub longitude: i64,
    pub min_intensity: u8,
}

/// Threshold used when a request names none.
pub fn default_min_intensity() -> (r: u8)
    ensures
        r == DEFAULT_MIN_INTENSITY,
{
    DEFAULT_MIN_INTENSITY
}

/// Envelope of every answer of the request layer.
#[derive(Debug, Clone)]
pub struct ApiResponse<T> {
    pub success: bool,
    pub message: String,
    pub data: Option<T>,
}

impl<T> ApiResponse<T> {
    pub fn success(message: String, data: Option<T>) -> (r: Self)
        ensures
            r.success,
            r.message == message,
            r.data == data,
    {
        ApiResponse { success: true, message, data }
    }

    pub fn error(message: String) -> (r: Self)
        ensures
            !r.success,
            r.message == message,
            r.data is None,
    {
        ApiResponse { success: false, message, data: None }
    }
}

/// The `type` discriminator that every feed message carries.
#[derive(Debug, Clone)]
pub struct WebSocketMessage {
    pub message_type: String,
}

/// Answer of the statistics endpoint.
#[derive(Debug, Clone, Copy)]
pub struct StatsResponse {
    pub total_subscriptions: usize,
}

/// Process settings.
#[derive(Debug, Clone)]
pub struct Config {
    pub server_host: String,
    pub server_port: u16,
    pub db_path: String,
    pub bark_api_url: String,
    /// Capacity of the limiter shared by all dispatch cycles.
    pub max_concurrent_notifications: usize,
    /// Accepted and kept; it has no effect on dispatch.
    pub batch_size: usize,
    pub http_pool_size: usize,
}

/// `s` with every occurrence of `x` taken out, the rest in order.
pub open spec fn without(s: Seq<Seq<char>>, x: Seq<char>) -> Seq<Seq<char>>
    decreases s.len(),
{
    if s.len() == 0 {
        s
    } else {
        let rest = without(s.drop_last(), x);
        if s.last() == x {
            rest
        } else {
            rest.push(s.last())
        }
    }
}

pub proof fn lemma_without(s: Seq<Seq<char>>, x: Seq<char>)
    ensures
        forall|y: Seq<char>| without(s, x).contains(y) <==> (s.contains(y) && y != x),
        s.no_duplicates() ==> without(s, x).no_duplicates(),
        !s.contains(x) ==> without(s, x) == s,
        without(s, x).len() <= s.len(),
    decreases s.len(),
{
    if s.len() > 0 {
        let p = s.drop_last();
        lemma_without(p, x);
        assert forall|y: Seq<char>| without(s, x).contains(y) <==> (s.contains(y) && y != x) by {
            if s.contains(y) && y != x {
                let i = choose|i: int| 0 <= i < s.len() && s[i] == y;
                if i < s.len() - 1 {
                    assert(p[i] == y);
                    assert(p.contains(y));
                    assert(without(p, x).contains(y));
                    let j = choose|j: int| 0 <= j < without(p, x).len() && without(p, x)[j] == y;
                    if s.last() != x {
                        assert(without(s, x)[j] == y);
                    }
                } else {
                    assert(without(s, x)[without(p, x).len() as int] == y);
                }
            }
            if without(s, x).contains(y) {
                let j = choose|j: int| 0 <= j < without(s, x).len() && without(s, x)[j] == y;
                if j < without(p, x).len() {
                    assert(without(p, x)[j] == y);
                    assert(p.contains(y));
                    let i = choose|i: int| 0 <= i < p.len() && p[i] == y;
                    assert(s[i] == y);
                } else {
                    assert(s[s.len() - 1] == y);
                }
            }
        }
        if s.no_duplicates() {
            assert(p.no_duplicates());
            if s.last() != x {
                assert(!p.contains(s.last()));
            }
        }
        if !s.contains(x) {
            assert(!p.contains(x));
            assert(s.last() != x);
            assert(s == p.push(s.last()));
        }
    }
}

/// The push targets of one cell, each once.
#[derive(Debug, Clone)]
pub struct GeoHashIndex {
    pub bark_ids: Vec<String>,
}

impl GeoHashIndex {
    pub open spec fn ids(&self) -> Seq<Seq<char>> {
        keys_of(self.bark_ids@)
    }

    pub open spec fn wf(&self) -> bool {
        self.ids().no_duplicates()
    }

    pub fn new() -> (r: Self)
        ensures
            r.ids() == Seq::<Seq<char>>::empty(),
            r.wf(),
    {
        let r = GeoHashIndex { bark_ids: Vec::new() };
        assert(r.ids() =~= Seq::<Seq<char>>::empty());
        r
    }

    /// Adds `bark_id` at the end unless it is already there.
    pub fn add(&mut self, bark_id: String)
        ensures
            final(self).ids() == if old(self).ids().contains(bark_id@) {
                old(self).ids()
            } else {
                old(self).ids().push(bark_id@)
            },
            old(self).wf() ==> final(self).wf(),
    {
        let mut i: usize = 0;
        let n = self.bark_ids.len();
        while i < n
            invariant
                n == self.bark_ids@.len(),
                i <= n,
                self.bark_ids == old(self).bark_ids,
                forall|k: int| 0 <= k < i ==> self.bark_ids@[k]@ != bark_id@,
            decreases n - i,
        {
            if self.bark_ids[i] == bark_id {
                assert(self.ids()[i as int] == bark_id@);
                return;
            }
            i = i + 1;
        }
        proof {
            if self.ids().contains(bark_id@) {
                let k = choose|k: int| 0 <= k < self.ids().len() && self.ids()[k] == bark_id@;
                assert(self.bark_ids@[k]@ == bark_id@);
            }
        }
        self.bark_ids.push(bark_id);
        assert(self.ids() =~= old(self).ids().push(bark_id@));
    }

    /// Takes `bark_id` out; the others keep their order.
    pub fn remove(&mut self, bark_id: &str)
        ensures
            final(self).ids() == without(old(self).ids(), bark_id@),
            old(self).wf() ==> final(self).wf(),
    {
        let target = String::from_str(bark_id);
        let mut kept: Vec<String> = Vec::new();
        let mut i: usize = 0;
        let n = self.bark_ids.len();
        while i < n
            invariant
                n == self.bark_ids@.len(),
                i <= n,
                self.bark_ids == old(self).bark_ids,
                target@ == bark_id@,
                keys_of(kept@) == without(self.ids().take(i as int), bark_id@),
            decreases n - i,
        {
            let ghost before = kept@;
            assert(self.ids().take(i + 1).drop_last() =~= self.ids().take(i as int));
            if !(self.bark_ids[i] == target) {
                kept.push(self.bark_ids[i].clone());
                assert(keys_of(kept@) =~= keys_of(before).push(self.ids()[i as int]));
            }
            i = i + 1;
        }
        assert(self.ids().take(n as int) =~= self.ids());
        self.bark_ids = kept;
        proof {
            lemma_without(old(self).ids(), bark_id@);
        }
    }
}

impl Default for GeoHashIndex {
    fn default() -> (r: Self)
        ensures
            r.ids() == Seq::<Seq<char>>::empty(),
    {
        GeoHashIndex::new()
    }
}

} // verus!
