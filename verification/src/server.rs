use vstd::prelude::*;
use std::io::Write;
use flate2::Compression;
use flate2::write::GzEncoder;
use crate::conceptual::{PlayerReq, UpdateReq};

verus! {

// ---------------------------------------------------------------------------
// The tick loop: the world ticks every round and is reset every
// `RESET_PERIOD` rounds.
// ---------------------------------------------------------------------------

/// The number of rounds from one reset of the world to the next.
pub const RESET_PERIOD: i32 = 60;

/// One round of the tick loop from round counter `i`: the next counter, and
/// whether the world is reset before it ticks in this round.
pub fn next_round(i: i32) -> (r: (i32, bool))
    requires
        0 <= i < i32::MAX,
    ensures
        r.0 == (i + 1) % (RESET_PERIOD as int),
        r.1 == (r.0 == 0),
{
    let next = (i + 1) % RESET_PERIOD;
    (next, next == 0)
}

/// The round counter after `k` rounds from the start.
pub open spec fn counter_after(k: nat) -> int
    decreases k,
{
    if k == 0 {
        0
    } else {
        (counter_after((k - 1) as nat) + 1) % (RESET_PERIOD as int)
    }
}

/// After `k` rounds the counter is `k` modulo the period: the world is reset
/// exactly in the rounds that are multiples of the period.
pub proof fn lemma_reset_every_period(k: nat)
    ensures
        counter_after(k) == (k as int) % (RESET_PERIOD as int),
        k > 0 ==> (counter_after(k) == 0 <==> (k as int) % (RESET_PERIOD as int) == 0),
    decreases k,
{
    if k > 0 {
        lemma_reset_every_period((k - 1) as nat);
        vstd::arithmetic::div_mod::lemma_add_mod_noop((k - 1) as int, 1, RESET_PERIOD as int);
        vstd::arithmetic::div_mod::lemma_small_mod(1, RESET_PERIOD as nat);
        vstd::arithmetic::div_mod::lemma_mod_twice((k - 1) as int, RESET_PERIOD as int);
    }
}

/// How long the tick loop waits after a round that took `elapsed`, to keep
/// rounds `period` apart: the rest of the period, or no wait when the round
/// took the whole period or more (both in nanoseconds).
pub fn pause_after(elapsed: u128, period: u128) -> (pause: Option<u128>)
    ensures
        elapsed < period ==> pause == Some((period - elapsed) as u128),
        elapsed >= period ==> pause is None,
{
    if elapsed < period {
        Some(period - elapsed)
    } else {
        None
    }
}

// ---------------------------------------------------------------------------
// Requests of the players.
// ---------------------------------------------------------------------------

/// A request whose message is a single star fetches the world's state; any
/// other message is an update for the world.
pub fn route(req: UpdateReq) -> (r: PlayerReq)
    ensures
        req.msg@ == seq!['*'] ==> r == PlayerReq::Fetch,
        req.msg@ != seq!['*'] ==> r == PlayerReq::Update(req),
{
    proof {
        reveal_strlit("*");
    }
    let star = String::from_str("*");
    assert(star@ == seq!['*']);
    let fetch = req.msg.eq(&star);
    if fetch {
        PlayerReq::Fetch
    } else {
        PlayerReq::Update(req)
    }
}

/// What a player's socket delivered.
pub enum Frame {
    /// The socket failed.
    Failed,
    /// A frame that holds no text.
    NonText,
    /// A text frame.
    Text(String),
}

/// What the connection does with a frame.
pub enum FrameAction {
    /// Stop listening to the player.
    Stop,
    /// Wait for the next frame.
    Skip,
    /// Hand the request to the world.
    Forward(UpdateReq),
}

/// A failed socket ends the connection, frames without text are passed
/// over, and a text becomes a request of player `id`.
pub fn on_frame(id: i64, frame: Frame) -> (action: FrameAction)
    ensures
        frame is Failed ==> action is Stop,
        frame is NonText ==> action is Skip,
        frame matches Frame::Text(msg) ==> action == FrameAction::Forward(UpdateReq { id: id, msg: msg }),
{
    match frame {
        Frame::Failed => FrameAction::Stop,
        Frame::NonText => FrameAction::Skip,
        Frame::Text(msg) => FrameAction::Forward(UpdateReq { id: id, msg: msg }),
    }
}

/// The demo server's decision on a frame: a text goes to the world as a
/// request of player 0, the only player it serves; anything else ends the
/// connection.
pub fn on_demo_frame(frame: Frame) -> (action: FrameAction)
    ensures
        frame matches Frame::Text(msg) ==> action == FrameAction::Forward(UpdateReq { id: 0, msg: msg }),
        !(frame is Text) ==> action is Stop,
{
    match frame {
        Frame::Text(msg) => FrameAction::Forward(UpdateReq { id: 0, msg: msg }),
        _ => FrameAction::Stop,
    }
}

// ---------------------------------------------------------------------------
// Compression of the world's state.
// ---------------------------------------------------------------------------

/// A gzip encoder that writes into a vector.
#[verifier::external_body]
pub struct GzSink {
    enc: GzEncoder<Vec<u8>>,
}

#[verifier::external_type_specification]
#[verifier::external_body]
pub struct ExIoError(std::io::Error);

/// The chunks of data that a gzip encoder has taken so far, in order.
pub uninterp spec fn gz_written(e: GzSink) -> Seq<Seq<u8>>;

/// The gzip stream, at the default compression level, that an encoder
/// produces from the chunks it took.
pub uninterp spec fn gzip_member(chunks: Seq<Seq<u8>>) -> Seq<u8>;

/// `flate2::write::GzEncoder::new` with an empty vector as the sink and the
/// default compression level: an encoder that has taken nothing.
#[verifier::external_body]
fn gz_encoder() -> (e: GzSink)
    ensures
        gz_written(e) == Seq::<Seq<u8>>::empty(),
{
    GzSink { enc: GzEncoder::new(Vec::new(), Compression::default()) }
}

/// `std::io::Write::write_all` on a `GzEncoder`: the encoder takes `data`
/// as its next chunk. Writing into a vector never fails, and the deflate
/// stream that flate2 runs fails only on misuse, so the call succeeds.
#[verifier::external_body]
fn gz_write_all(e: &mut GzSink, data: &[u8]) -> (r: Result<(), std::io::Error>)
    ensures
        r is Ok,
        gz_written(*final(e)) == gz_written(*old(e)).push(data@),
{
    e.enc.write_all(data)
}

/// `flate2::write::GzEncoder::finish`: the gzip stream of the chunks that
/// the encoder took. Its sink is a vector, which never fails, so the call
/// succeeds.
#[verifier::external_body]
fn gz_finish(e: GzSink) -> (r: Result<Vec<u8>, std::io::Error>)
    ensures
        r is Ok,
        r matches Ok(v) ==> v@ == gzip_member(gz_written(e)),
{
    e.enc.finish()
}

/// Compress the world's state for a player: the gzip stream of `data`.
pub fn compress(data: &[u8]) -> (r: Option<Vec<u8>>)
    ensures
        r is Some,
        r matches Some(v) ==> v@ == gzip_member(seq![data@]),
{
    let mut e = gz_encoder();
    match gz_write_all(&mut e, data) {
        Err(_) => {
            return None;
        },
        Ok(()) => {},
    }
    assert(gz_written(e) =~= seq![data@]);
    match gz_finish(e) {
        Ok(r) => Some(r),
        Err(_) => None,
    }
}

} // verus!
