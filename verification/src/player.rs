//! The playlist store: an ordered list of streams, a monotonic id
//! counter, and the playback cursor, together with the controller
//! operations that mutate it.
//!
//! Persistence and the engine command that a cursor change triggers are
//! process edges: the caller persists the store's text form (see the
//! codec) and issues the load command after each mutating operation here.

use vstd::prelude::*;

verus! {

/// One addressable audio source in the playlist. Identity is `id`, which
/// is unique within a store and never reused; `name` and `url` change
/// only by delete and re-add.
#[derive(Debug)]
pub struct Stream {
    pub name: String,
    pub url: String,
    pub id: usize,
}

/// A request to add a stream, as the request layer hands it over.
#[derive(Debug)]
pub struct StreamInfo {
    pub name: String,
    pub url: String,
}

/// The persistent part of the store: the streams in playlist order, the
/// cursor, and the id counter. The counter is not persisted; loading
/// recomputes it as the largest id present.
pub struct PlayerCfg {
    pub streams: Vec<Stream>,
    pub current: usize,
    pub last_id: usize,
}

/// The playlist store. The running process wraps it in its lock together
/// with the engine handle; every operation here sees the store whole.
pub struct Player {
    pub cfg: PlayerCfg,
}

/// Mathematical value of one stream.
#[verifier::ext_equal]
pub ghost struct StreamView {
    pub id: nat,
    pub name: Seq<char>,
    pub url: Seq<char>,
}

/// Mathematical value of the store.
#[verifier::ext_equal]
pub ghost struct CfgView {
    pub streams: Seq<StreamView>,
    pub current: nat,
    pub last_id: nat,
}

impl View for Stream {
    type V = StreamView;

    open spec fn view(&self) -> StreamView {
        StreamView { id: self.id as nat, name: self.name@, url: self.url@ }
    }
}

impl View for PlayerCfg {
    type V = CfgView;

    open spec fn view(&self) -> CfgView {
        CfgView {
            streams: self.streams@.map_values(|s: Stream| s@),
            current: self.current as nat,
            last_id: self.last_id as nat,
        }
    }
}

impl View for Player {
    type V = CfgView;

    open spec fn view(&self) -> CfgView {
        self.cfg@
    }
}

impl CfgView {
    /// Store invariant: the counter dominates every id in the playlist,
    /// and ids never repeat. The cursor is deliberately not constrained:
    /// deleting a stream leaves it where it was, possibly past the end.
    pub open spec fn wf(self) -> bool {
        &&& forall|i: int|
            0 <= i < self.streams.len() ==> #[trigger] self.streams[i].id <= self.last_id
        &&& forall|i: int, j: int|
            #![trigger self.streams[i].id, self.streams[j].id]
            0 <= i < j < self.streams.len() ==> self.streams[i].id != self.streams[j].id
    }
}

/// Index of the first stream with the given id, or -1 when no stream has
/// it.
pub open spec fn find_id(streams: Seq<StreamView>, id: nat) -> int
    decreases streams.len(),
{
    if streams.len() == 0 {
        -1
    } else if streams[0].id == id {
        0
    } else {
        let rest = find_id(streams.drop_first(), id);
        if rest == -1 {
            -1
        } else {
            rest + 1
        }
    }
}

/// What `find_id` finds: -1 means the id is absent; otherwise it is the
/// position of the earliest stream carrying the id.
pub proof fn lemma_find_id(streams: Seq<StreamView>, id: nat)
    ensures
        find_id(streams, id) == -1 ==> forall|i: int|
            0 <= i < streams.len() ==> (#[trigger] streams[i].id) != id,
        find_id(streams, id) != -1 ==> {
            &&& 0 <= find_id(streams, id) < streams.len()
            &&& streams[find_id(streams, id)].id == id
            &&& forall|i: int| 0 <= i < find_id(streams, id) ==> (#[trigger] streams[i].id) != id
        },
    decreases streams.len(),
{
    if streams.len() != 0 && streams[0].id != id {
        lemma_find_id(streams.drop_first(), id);
        let rest = find_id(streams.drop_first(), id);
        assert(forall|i: int|
            1 <= i < streams.len() ==> streams.drop_first()[i - 1] == #[trigger] streams[i]);
    }
}

/// The store an `add` produces: the new stream, carrying the next id,
/// goes to the end; the cursor stays.
pub open spec fn add_t(v: CfgView, name: Seq<char>, url: Seq<char>) -> CfgView {
    CfgView {
        streams: v.streams.push(StreamView { id: (v.last_id + 1) as nat, name, url }),
        current: v.current,
        last_id: (v.last_id + 1) as nat,
    }
}

/// The store an `advance` produces: on an empty playlist nothing moves;
/// otherwise the cursor steps one place forward or backward, circularly.
pub open spec fn advance_t(v: CfgView, forward: bool) -> CfgView {
    if v.streams.len() == 0 {
        v
    } else {
        let len = v.streams.len() as int;
        let cur = if forward {
            (v.current as int + 1) % len
        } else {
            (v.current as int + len - 1) % len
        };
        CfgView { streams: v.streams, current: cur as nat, last_id: v.last_id }
    }
}

impl Default for PlayerCfg {
    /// An empty playlist: no streams, cursor at the origin, no id handed
    /// out yet.
    fn default() -> (r: PlayerCfg)
        ensures
            r@ == (CfgView { streams: Seq::<StreamView>::empty(), current: 0nat, last_id: 0nat }),
            r@.wf(),
    {
        let r = PlayerCfg { streams: Vec::new(), current: 0, last_id: 0 };
        proof {
            assert(r@.streams =~= Seq::<StreamView>::empty());
            assert(r@ =~= CfgView {
                streams: Seq::<StreamView>::empty(),
                current: 0nat,
                last_id: 0nat,
            });
        }
        r
    }
}

impl Default for Player {
    /// A store holding an empty playlist.
    fn default() -> (r: Player)
        ensures
            r@ == (CfgView { streams: Seq::<StreamView>::empty(), current: 0nat, last_id: 0nat }),
            r@.wf(),
    {
        Player { cfg: PlayerCfg::default() }
    }
}

impl Stream {
    /// Pack the three fields of a stream.
    pub fn new(id: usize, name: String, url: String) -> (r: Stream)
        ensures
            r@ == (StreamView { id: id as nat, name: name@, url: url@ }),
    {
        Stream { id, name, url }
    }
}

impl Player {
    /// Read-only view of the playlist in order.
    pub fn get_playlist(&self) -> (r: &Vec<Stream>)
        ensures
            r@ == self.cfg.streams@,
    {
        &self.cfg.streams
    }

    /// The stream under the cursor, or nothing when the cursor is out of
    /// range (in particular on an empty playlist).
    pub fn get_current(&self) -> (r: Option<&Stream>)
        ensures
            match r {
                Some(s) => self@.current < self@.streams.len() && s@ == self@.streams[self@.current as int],
                None => self@.current >= self@.streams.len(),
            },
    {
        if self.cfg.current < self.cfg.streams.len() {
            Some(&self.cfg.streams[self.cfg.current])
        } else {
            None
        }
    }

    /// Append a new stream under the next id and return it. The caller
    /// persists the store afterwards and, per the design, checked the
    /// URL's scheme before calling.
    pub fn add(&mut self, name: String, url: String) -> (r: &Stream)
        requires
            old(self).cfg.last_id < usize::MAX,
        ensures
            final(self)@ == add_t(old(self)@, name@, url@),
            r@ == (StreamView { id: (old(self)@.last_id + 1) as nat, name: name@, url: url@ }),
            old(self)@.wf() ==> final(self)@.wf(),
    {
        proof {
            if old(self)@.wf() {
                lemma_add_keeps_wf(old(self)@, name@, url@);
            }
        }
        self.cfg.last_id = self.cfg.last_id + 1;
        let id = self.cfg.last_id;
        self.cfg.streams.push(Stream { name, url, id });
        proof {
            assert(final(self)@.streams =~= add_t(old(self)@, name@, url@).streams);
            assert(final(self)@ =~= add_t(old(self)@, name@, url@));
        }
        let n = self.cfg.streams.len();
        &self.cfg.streams[n - 1]
    }

    /// Move the cursor to the stream with the given id and return it; on
    /// an unknown id report failure and leave the whole store as it was.
    /// The caller then issues the engine's load command for the returned
    /// stream's URL and persists the store.
    pub fn play(&mut self, id: usize) -> (r: Result<&Stream, ()>)
        ensures
            ({
                let pos = find_id(old(self)@.streams, id as nat);
                match r {
                    Ok(s) => {
                        &&& pos >= 0
                        &&& final(self)@.streams == old(self)@.streams
                        &&& final(self)@.last_id == old(self)@.last_id
                        &&& final(self)@.current == pos
                        &&& s@ == old(self)@.streams[pos]
                    },
                    Err(e) => {
                        &&& pos == -1
                        &&& final(self)@ == old(self)@
                    },
                }
            }),
            old(self)@.wf() ==> final(self)@.wf(),
    {
        let ghost pos = find_id(old(self)@.streams, id as nat);
        let n = self.cfg.streams.len();
        let mut i: usize = 0;
        while i < n
            invariant
                *self == *old(self),
                n == self.cfg.streams.len(),
                i <= n,
                pos == find_id(old(self)@.streams, id as nat),
                forall|j: int| 0 <= j < i ==> (#[trigger] old(self)@.streams[j].id) != id as nat,
            decreases n - i,
        {
            if self.cfg.streams[i].id == id {
                proof {
                    lemma_find_id(old(self)@.streams, id as nat);
                    assert(old(self)@.streams[i as int].id == id as nat);
                    assert(pos == i as int);
                }
                self.cfg.current = i;
                proof {
                    assert(final(self)@.streams =~= old(self)@.streams);
                }
                return Ok(&self.cfg.streams[i]);
            }
            i = i + 1;
        }
        proof {
            lemma_find_id(old(self)@.streams, id as nat);
            assert(pos == -1) by {
                if pos != -1 {
                    lemma_find_id(old(self)@.streams, id as nat);
                    assert(old(self)@.streams[pos].id == id as nat);
                }
            }
        }
        Err(())
    }

    /// Remove the stream with the given id and hand it back, or report
    /// nothing for an unknown id. The cursor and the id counter stay as
    /// they are, so a removed id is never reissued and the cursor may be
    /// left past the end. The caller persists the store afterwards.
    pub fn delete(&mut self, id: usize) -> (r: Option<Stream>)
        ensures
            ({
                let pos = find_id(old(self)@.streams, id as nat);
                match r {
                    Some(st) => {
                        &&& pos >= 0
                        &&& st@ == old(self)@.streams[pos]
                        &&& final(self)@.streams == old(self)@.streams.remove(pos)
                        &&& final(self)@.current == old(self)@.current
                        &&& final(self)@.last_id == old(self)@.last_id
                    },
                    None => {
                        &&& pos == -1
                        &&& final(self)@ == old(self)@
                    },
                }
            }),
            old(self)@.wf() ==> final(self)@.wf(),
    {
        let ghost pos = find_id(old(self)@.streams, id as nat);
        let n = self.cfg.streams.len();
        let mut i: usize = 0;
        while i < n
            invariant
                *self == *old(self),
                n == self.cfg.streams.len(),
                i <= n,
                pos == find_id(old(self)@.streams, id as nat),
                forall|j: int| 0 <= j < i ==> (#[trigger] old(self)@.streams[j].id) != id as nat,
            decreases n - i,
        {
            if self.cfg.streams[i].id == id {
                proof {
                    lemma_find_id(old(self)@.streams, id as nat);
                    assert(old(self)@.streams[i as int].id == id as nat);
                    assert(pos == i as int);
                    if old(self)@.wf() {
                        lemma_remove_keeps_wf(old(self)@, pos);
                    }
                }
                let st = self.cfg.streams.remove(i);
                proof {
                    assert(final(self)@.streams =~= old(self)@.streams.remove(pos));
                }
                return Some(st);
            }
            i = i + 1;
        }
        proof {
            lemma_find_id(old(self)@.streams, id as nat);
            assert(pos == -1) by {
                if pos != -1 {
                    lemma_find_id(old(self)@.streams, id as nat);
                    assert(old(self)@.streams[pos].id == id as nat);
                }
            }
        }
        None
    }

    /// Step the cursor one place forward or backward, circularly, and
    /// return the stream it lands on; on an empty playlist do nothing.
    /// The caller then issues the engine's load command for the returned
    /// stream's URL and persists the store.
    pub fn advance(&mut self, forward: bool) -> (r: Option<&Stream>)
        ensures
            final(self)@ == advance_t(old(self)@, forward),
            match r {
                Some(s) => old(self)@.streams.len() > 0 && s@ == final(self)@.streams[final(self)@.current as int],
                None => old(self)@.streams.len() == 0,
            },
            old(self)@.wf() ==> final(self)@.wf(),
    {
        let len = self.cfg.streams.len();
        if len == 0 {
            return None;
        }
        let c = self.cfg.current % len;
        let nc: usize = if forward {
            if c == len - 1 {
                0
            } else {
                c + 1
            }
        } else {
            if c == 0 {
                len - 1
            } else {
                c - 1
            }
        };
        proof {
            lemma_step_mod(old(self)@.current as int, len as int, forward);
            if forward {
                assert(nc as int == (old(self)@.current as int + 1) % (len as int));
            } else {
                assert(nc as int == (old(self)@.current as int + len as int - 1) % (len as int));
            }
        }
        self.cfg.current = nc;
        Some(&self.cfg.streams[nc])
    }

    /// Advance to the next stream in playlist order.
    pub fn next(&mut self) -> (r: Option<&Stream>)
        ensures
            final(self)@ == advance_t(old(self)@, true),
            match r {
                Some(s) => old(self)@.streams.len() > 0 && s@ == final(self)@.streams[final(self)@.current as int],
                None => old(self)@.streams.len() == 0,
            },
            old(self)@.wf() ==> final(self)@.wf(),
    {
        self.advance(true)
    }

    /// Advance to the previous stream in playlist order.
    pub fn prev(&mut self) -> (r: Option<&Stream>)
        ensures
            final(self)@ == advance_t(old(self)@, false),
            match r {
                Some(s) => old(self)@.streams.len() > 0 && s@ == final(self)@.streams[final(self)@.current as int],
                None => old(self)@.streams.len() == 0,
            },
            old(self)@.wf() ==> final(self)@.wf(),
    {
        self.advance(false)
    }
}

/// Stepping the cursor by explicit cases agrees with the circular
/// formulas of `advance_t`.
proof fn lemma_step_mod(cur: int, len: int, forward: bool)
    requires
        len > 0,
        cur >= 0,
    ensures
        forward ==> {
            let c = cur % len;
            (if c == len - 1 {
                0int
            } else {
                c + 1
            }) == (cur + 1) % len
        },
        !forward ==> {
            let c = cur % len;
            (if c == 0 {
                len - 1
            } else {
                c - 1
            }) == (cur + len - 1) % len
        },
{
    let c = cur % len;
    let q = cur / len;
    vstd::arithmetic::div_mod::lemma_mod_bound(cur, len);
    vstd::arithmetic::div_mod::lemma_fundamental_div_mod(cur, len);
    assert(cur == len * q + c);
    if forward {
        vstd::arithmetic::div_mod::lemma_mod_multiples_vanish(q, c + 1, len);
        assert((len * q + (c + 1)) % len == (c + 1) % len);
        assert(cur + 1 == len * q + (c + 1));
        if c == len - 1 {
            vstd::arithmetic::div_mod::lemma_mod_self_0(len);
            assert((c + 1) % len == 0);
        } else {
            vstd::arithmetic::div_mod::lemma_small_mod((c + 1) as nat, len as nat);
        }
    } else {
        vstd::arithmetic::div_mod::lemma_mod_multiples_vanish(q, c + len - 1, len);
        assert((len * q + (c + len - 1)) % len == (c + len - 1) % len);
        assert(cur + len - 1 == len * q + (c + len - 1));
        if c == 0 {
            vstd::arithmetic::div_mod::lemma_small_mod((len - 1) as nat, len as nat);
        } else {
            vstd::arithmetic::div_mod::lemma_mod_add_multiples_vanish(c - 1, len);
            vstd::arithmetic::div_mod::lemma_small_mod((c - 1) as nat, len as nat);
        }
    }
}

/// The store after `n` forward or backward steps of the cursor.
pub open spec fn advance_n_t(v: CfgView, forward: bool, n: nat) -> CfgView
    decreases n,
{
    if n == 0 {
        v
    } else {
        advance_t(advance_n_t(v, forward, (n - 1) as nat), forward)
    }
}

/// Shifting a summand by its remainder leaves a sum's remainder alone.
proof fn lemma_mod_shift(x: int, k: int, len: int)
    requires
        len > 0,
        x >= 0,
        k >= 0,
    ensures
        ((x % len) + k) % len == (x + k) % len,
{
    let q = x / len;
    vstd::arithmetic::div_mod::lemma_fundamental_div_mod(x, len);
    assert(x == len * q + x % len);
    vstd::arithmetic::div_mod::lemma_mod_multiples_vanish(q, x % len + k, len);
    assert((len * q + (x % len + k)) % len == (x % len + k) % len);
    assert(x + k == len * q + (x % len + k));
}

/// Where the cursor stands after stepping forward `n` times: `n` places
/// further, circularly; nothing else moves.
proof fn lemma_advance_n_forward(v: CfgView, n: nat)
    requires
        v.streams.len() > 0,
    ensures
        advance_n_t(v, true, n).streams == v.streams,
        advance_n_t(v, true, n).last_id == v.last_id,
        n > 0 ==> advance_n_t(v, true, n).current == ((v.current as int + n) % (
        v.streams.len() as int)) as nat,
    decreases n,
{
    let len = v.streams.len() as int;
    if n > 0 {
        lemma_advance_n_forward(v, (n - 1) as nat);
        let w = advance_n_t(v, true, (n - 1) as nat);
        vstd::arithmetic::div_mod::lemma_mod_bound(v.current as int + n - 1, len);
        vstd::arithmetic::div_mod::lemma_mod_bound(v.current as int + n as int, len);
        if n == 1 {
            assert(advance_n_t(v, true, n) == advance_t(v, true));
        } else {
            assert(w.current as int == (v.current as int + n - 1) % len);
            lemma_mod_shift(v.current as int + n - 1, 1, len);
            assert((w.current as int + 1) % len == (v.current as int + n as int) % len);
        }
    }
}

/// Advancing forward once per playlist entry brings the cursor back to
/// where it started, so the same stream is selected again: the cursor is
/// circular.
pub proof fn lemma_forward_full_cycle(v: CfgView)
    requires
        v.streams.len() > 0,
        v.current < v.streams.len(),
    ensures
        advance_n_t(v, true, v.streams.len()) == v,
{
    let len = v.streams.len() as int;
    lemma_advance_n_forward(v, v.streams.len());
    vstd::arithmetic::div_mod::lemma_mod_add_multiples_vanish(v.current as int, len);
    vstd::arithmetic::div_mod::lemma_small_mod(v.current, v.streams.len());
    assert((v.current as int + v.streams.len() as int) % len == v.current as int);
    assert(advance_n_t(v, true, v.streams.len()) =~= v);
}

/// One step backward exactly undoes one step forward, and one step
/// forward exactly undoes one step backward, from every cursor position
/// that indexes the playlist (and trivially on an empty playlist).
pub proof fn lemma_backward_inverts_forward(v: CfgView)
    requires
        v.current < v.streams.len() || v.streams.len() == 0,
    ensures
        advance_t(advance_t(v, true), false) == v,
        advance_t(advance_t(v, false), true) == v,
{
    if v.streams.len() > 0 {
        let len = v.streams.len() as int;
        let c = v.current as int;
        vstd::arithmetic::div_mod::lemma_mod_bound(c + 1, len);
        vstd::arithmetic::div_mod::lemma_mod_bound(c + len - 1, len);
        vstd::arithmetic::div_mod::lemma_mod_self_0(len);
        if c == len - 1 {
            assert((c + 1) % len == 0) by {
                assert(c + 1 == len);
            }
        } else {
            vstd::arithmetic::div_mod::lemma_small_mod((c + 1) as nat, len as nat);
        }
        let a = (c + 1) % len;
        vstd::arithmetic::div_mod::lemma_mod_bound(a + len - 1, len);
        if a == 0 {
            vstd::arithmetic::div_mod::lemma_small_mod((len - 1) as nat, len as nat);
        } else {
            vstd::arithmetic::div_mod::lemma_mod_add_multiples_vanish(a - 1, len);
            vstd::arithmetic::div_mod::lemma_small_mod((a - 1) as nat, len as nat);
        }
        assert(advance_t(advance_t(v, true), false) =~= v);
        if c == 0 {
            vstd::arithmetic::div_mod::lemma_small_mod((len - 1) as nat, len as nat);
        } else {
            vstd::arithmetic::div_mod::lemma_mod_add_multiples_vanish(c - 1, len);
            vstd::arithmetic::div_mod::lemma_small_mod((c - 1) as nat, len as nat);
        }
        let b = (c + len - 1) % len;
        vstd::arithmetic::div_mod::lemma_mod_bound(b + 1, len);
        if b == len - 1 {
            assert((b + 1) % len == 0) by {
                assert(b + 1 == len);
            }
        } else {
            vstd::arithmetic::div_mod::lemma_small_mod((b + 1) as nat, len as nat);
        }
        assert(advance_t(advance_t(v, false), true) =~= v);
    } else {
        assert(advance_t(advance_t(v, true), false) =~= v);
        assert(advance_t(advance_t(v, false), true) =~= v);
    }
}

/// The id an `add` hands out is strictly greater than every id in the
/// playlist. Together with each operation keeping the counter (`delete`
/// and the rest never lower it, `add` raises it), ids over any run of
/// operations are strictly increasing and never repeat, deletions or not.
pub proof fn lemma_add_assigns_fresh_id(v: CfgView, name: Seq<char>, url: Seq<char>)
    requires
        v.wf(),
    ensures
        add_t(v, name, url).wf(),
        add_t(v, name, url).last_id > v.last_id,
        add_t(v, name, url).streams.last().id == v.last_id + 1,
        forall|i: int|
            0 <= i < v.streams.len() ==> (#[trigger] v.streams[i].id) < add_t(
                v,
                name,
                url,
            ).streams.last().id,
{
    lemma_add_keeps_wf(v, name, url);
}

/// Two `add`s, in whichever order the store's lock serialized them, hand
/// out two distinct ids and lose nothing: the playlist afterwards is the
/// old playlist with both new entries appended.
pub proof fn lemma_serialized_adds(
    v: CfgView,
    n1: Seq<char>,
    u1: Seq<char>,
    n2: Seq<char>,
    u2: Seq<char>,
)
    requires
        v.wf(),
    ensures
        ({
            let w = add_t(add_t(v, n1, u1), n2, u2);
            &&& w.wf()
            &&& w.streams =~= v.streams.push(
                StreamView { id: (v.last_id + 1) as nat, name: n1, url: u1 },
            ).push(StreamView { id: (v.last_id + 2) as nat, name: n2, url: u2 })
            &&& w.streams[v.streams.len() as int].id != w.streams[v.streams.len() as int + 1].id
        }),
{
    lemma_add_keeps_wf(v, n1, u1);
    lemma_add_keeps_wf(add_t(v, n1, u1), n2, u2);
}

/// Appending a fresh stream keeps the invariant: the new id exceeds the
/// counter's old value, which dominates every id already present.
proof fn lemma_add_keeps_wf(v: CfgView, name: Seq<char>, url: Seq<char>)
    requires
        v.wf(),
    ensures
        add_t(v, name, url).wf(),
{
    let w = add_t(v, name, url);
    assert(forall|i: int| 0 <= i < v.streams.len() ==> w.streams[i] == v.streams[i]);
}

/// Removing any stream keeps the invariant.
proof fn lemma_remove_keeps_wf(v: CfgView, pos: int)
    requires
        v.wf(),
        0 <= pos < v.streams.len(),
    ensures
        (CfgView { streams: v.streams.remove(pos), ..v }).wf(),
{
    let w = CfgView { streams: v.streams.remove(pos), ..v };
    assert(forall|i: int|
        0 <= i < w.streams.len() ==> #[trigger] w.streams[i] == (if i < pos {
            v.streams[i]
        } else {
            v.streams[i + 1]
        }));
}

} // verus!
