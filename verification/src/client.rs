//! What the player and its playback thread say to each other, and how the
//! selection in the list of tracks moves.

use crate::error::{AppError, MpdError};
use crate::library::LibraryClient;
use crate::order::reversed;
use crate::text::{begins_with, decimal, decimal_string, push_decimal, starts_with};
use crate::track::{AudioTrack, TrackModel};
use vstd::prelude::*;
use vstd::string::*;
use vstd::utf8::*;

verus! {

/// The kind of a playback client.
#[derive(Debug, Clone, Copy, PartialEq, Eq, Structural)]
pub enum ClientKind {
    Library,
    Mpd,
}

/// What the player asks of the playback thread.
#[derive(Debug, PartialEq, Eq)]
pub enum AppToPlaybackEvent {
    /// Replaces the queue by these tracks.
    SetQueue(Vec<AudioTrack>),
    /// Adds these tracks to the end of the queue.
    AppendQueue(Vec<AudioTrack>),
    /// Plays; nothing happens if it plays already.
    Play,
    /// Pauses what plays and plays what is paused.
    TogglePause,
    /// Asks whether a track is playing.
    PlayStatus,
    Tick,
    VolumeUp,
    VolumeDown,
    RequestDuration,
}

/// What the playback thread tells the player.
#[derive(Debug, Clone, Copy, PartialEq, Eq, Structural)]
pub enum PlaybackToAppEvent {
    CurrentDuration(i64),
}

/// A command for the playback daemon.
#[derive(Debug, Clone, Copy, PartialEq, Eq, Structural)]
pub enum MpdCommand {
    Status,
    Play(usize),
}

/// The line that asks the daemon for `command`.
pub open spec fn command_line(command: MpdCommand) -> Seq<char> {
    match command {
        MpdCommand::Status => "status\n"@,
        MpdCommand::Play(index) => "play "@ + decimal(index as nat) + "\n"@,
    }
}

impl MpdCommand {
    /// The bytes that ask the daemon for this command: its line in UTF-8.
    pub fn as_bytes(&self) -> (r: Vec<u8>)
        ensures
            r@ == encode_utf8(command_line(*self)),
    {
        match self {
            MpdCommand::Status => "status\n".as_bytes_vec(),
            MpdCommand::Play(index) => {
                let mut line = String::from_str("play ");
                push_decimal(&mut line, *index as u128);
                line.append("\n");
                line.as_str().as_bytes_vec()
            },
        }
    }
}

/// The selection after a step down a list of `len` tracks: the next
/// track, the last one where there is no next, the first where nothing was
/// selected.
pub fn select_next_track(selected: Option<usize>, len: usize) -> (r: Option<usize>)
    ensures
        r == match selected {
            Some(index) => if index + 1 < len {
                Some((index + 1) as usize)
            } else {
                Some(index)
            },
            None => Some(0usize),
        },
{
    match selected {
        Some(index) => {
            if index < len && index + 1 < len {
                Some(index + 1)
            } else {
                Some(index)
            }
        },
        None => Some(0),
    }
}

/// The selection after a step up the list: the track before, the first
/// one where there is none before, the first where nothing was selected.
pub fn select_prev_track(selected: Option<usize>) -> (r: Option<usize>)
    ensures
        r == match selected {
            Some(index) => if index >= 1 {
                Some((index - 1) as usize)
            } else {
                Some(index)
            },
            None => Some(0usize),
        },
{
    match selected {
        Some(index) => {
            if index >= 1 {
                Some(index - 1)
            } else {
                Some(index)
            }
        },
        None => Some(0),
    }
}

/// The selection of the first track.
pub fn select_first_track() -> (r: Option<usize>)
    ensures
        r == Some(0usize),
{
    Some(0)
}

/// The selection of the last of `len` tracks.
pub fn select_last_track(len: usize) -> (r: Option<usize>)
    requires
        len > 0,
    ensures
        r == Some((len - 1) as usize),
{
    Some(len - 1)
}

/// A length of time as minutes and seconds with a colon between them,
/// each as a plain numeral; without a length, two zeros for each.
pub open spec fn clock_text(seconds: Option<u64>) -> Seq<char> {
    match seconds {
        Some(s) => decimal((s / 60) as nat) + ":"@ + decimal((s % 60) as nat),
        None => "00:00"@,
    }
}

/// The text that shows how long a track lasts, given in seconds.
pub fn timestamp(seconds: Option<u64>) -> (r: String)
    ensures
        r@ == clock_text(seconds),
{
    match seconds {
        Some(s) => {
            let mut out = decimal_string((s / 60) as u128);
            out.append(":");
            push_decimal(&mut out, (s % 60) as u128);
            out
        },
        None => String::from_str("00:00"),
    }
}

/// How many tracks a shuffled queue holds at most.
pub const QUEUE_LEN: usize = 20;

/// Whether `places` are places in a list of `len` elements, no place twice.
pub open spec fn selection(places: Seq<usize>, len: nat) -> bool {
    &&& forall|i: int| 0 <= i < places.len() ==> (#[trigger] places[i]) < len
    &&& forall|i: int, j: int|
        0 <= i < j < places.len() ==> (#[trigger] places[i]) != (#[trigger] places[j])
}

/// The tracks at `places` in `tracks`, in the order of the places.
pub open spec fn chosen(tracks: Seq<TrackModel>, places: Seq<usize>) -> Seq<TrackModel> {
    Seq::new(places.len(), |k: int| tracks[places[k] as int])
}

/// `rand::seq::index::sample` with the generator of the thread,
/// `rand::thread_rng`: `amount` places in a list of `length` elements,
/// picked at random and handed out as a vector. It panics where more
/// places are asked for than there are, which the contract leaves out.
/// The contract claims what holds of every pick: there are `amount` of
/// them, each is a place in the list, and none comes twice.
#[verifier::external_body]
fn sample_places(length: usize, amount: usize) -> (r: Vec<usize>)
    requires
        amount <= length,
    ensures
        r@.len() == amount,
        selection(r@, length as nat),
{
    rand::seq::index::sample(&mut rand::thread_rng(), length, amount).into_vec()
}

/// Copies of the tracks at `places` in `tracks`, in the order of the
/// places.
pub fn tracks_at(tracks: &Vec<&AudioTrack>, places: &Vec<usize>) -> (r: Vec<AudioTrack>)
    requires
        forall|i: int| 0 <= i < places@.len() ==> (#[trigger] places@[i]) < tracks@.len(),
    ensures
        r.deep_view() == chosen(tracks.deep_view(), places@),
{
    let mut out: Vec<AudioTrack> = Vec::new();
    let n = places.len();
    let mut k: usize = 0;
    while k < n
        invariant
            k <= n,
            n == places@.len(),
            out@.len() == k,
            forall|i: int| 0 <= i < places@.len() ==> (#[trigger] places@[i]) < tracks@.len(),
            forall|i: int| 0 <= i < k ==> (#[trigger] out@[i])@ == tracks@[places@[i] as int]@,
        decreases n - k,
    {
        out.push(tracks[places[k]].clone());
        k += 1;
    }
    assert(out.deep_view() =~= chosen(tracks.deep_view(), places@));
    out
}

impl LibraryClient {
    /// Tracks for a shuffled queue: twenty tracks of the album index, or
    /// all where there are fewer, picked at random, none of them twice.
    pub fn generate_random_queue(&self) -> (r: Vec<AudioTrack>)
        ensures
            r@.len() == if crate::index::flat(self.index()).len() < QUEUE_LEN {
                crate::index::flat(self.index()).len()
            } else {
                QUEUE_LEN as nat
            },
            exists|places: Seq<usize>|
                selection(places, crate::index::flat(self.index()).len()) && r.deep_view()
                    == #[trigger] chosen(crate::index::flat(self.index()), places),
    {
        let tracks = self.audio_tracks();
        let n = tracks.len();
        assert(tracks.deep_view().len() == n);
        let amount = if n < QUEUE_LEN {
            n
        } else {
            QUEUE_LEN
        };
        let places = sample_places(n, amount);
        let queue = tracks_at(&tracks, &places);
        assert(queue.deep_view().len() == queue@.len());
        queue
    }
}

/// Whether the daemon's first line greets a client.
pub open spec fn greets(line: Seq<char>) -> bool {
    begins_with(line, "OK MPD "@)
}

/// The lines of a reply before the one that ends it: those before the
/// first line that is `OK` or begins with `ACK`, or all where there is
/// none.
pub open spec fn reply_data(lines: Seq<Seq<char>>) -> Seq<Seq<char>>
    decreases lines.len(),
{
    if lines.len() == 0 || lines[0] == "OK"@ || begins_with(lines[0], "ACK"@) {
        Seq::empty()
    } else {
        seq![lines[0]] + reply_data(lines.drop_first())
    }
}

/// The refusal that ends a reply, if one does: the first line that begins
/// with `ACK`, unless a line that is `OK` comes before it.
pub open spec fn reply_refusal(lines: Seq<Seq<char>>) -> Option<Seq<char>>
    decreases lines.len(),
{
    if lines.len() == 0 || lines[0] == "OK"@ {
        None
    } else if begins_with(lines[0], "ACK"@) {
        Some(lines[0])
    } else {
        reply_refusal(lines.drop_first())
    }
}

/// Checks the line with which the daemon answers a new connection. A line
/// that is no greeting is an error that holds it.
pub fn check_greeting(line: &String) -> (r: Result<(), AppError>)
    ensures
        if greets(line@) {
            r is Ok
        } else {
            r matches Err(AppError::MpdClient(MpdError::MpdClient(text))) && text@
                == "[init connection] "@ + line@
        },
{
    if starts_with(line.as_str(), "OK MPD ") {
        Ok(())
    } else {
        let mut text = String::from_str("[init connection] ");
        text.append(line.as_str());
        Err(AppError::MpdClient(MpdError::MpdClient(text)))
    }
}

/// Reads the reply to a command from the lines that the daemon sent. The
/// lines before the line `OK`, or all where there is none, are the
/// result; a line that begins with `ACK` before it is a refusal, and the
/// error holds the lines before it and the refusal.
pub fn read_reply(lines: Vec<String>) -> (r: Result<Vec<String>, AppError>)
    ensures
        match reply_refusal(lines.deep_view()) {
            Some(refusal) => r matches Err(AppError::MpdClient(MpdError::MpdProtocol(data, line)))
                && data.deep_view() == reply_data(lines.deep_view()) && line@ == refusal,
            None => r matches Ok(data) && data.deep_view() == reply_data(lines.deep_view()),
        },
{
    let ghost whole = lines.deep_view();
    let ghost n = whole.len();
    let mut rest = reversed(lines);
    let mut messages: Vec<String> = Vec::new();
    assert(whole.skip(0) =~= whole);
    assert(Seq::<Seq<char>>::empty() + reply_data(whole) =~= reply_data(whole));
    while rest.len() > 0
        invariant
            whole == lines.deep_view(),
            n == whole.len(),
            rest@.len() <= n,
            forall|i: int| 0 <= i < rest@.len() ==> (#[trigger] rest@[i])@ == whole[n - 1 - i],
            reply_data(whole) == messages.deep_view() + reply_data(whole.skip(n - rest@.len())),
            reply_refusal(whole) == reply_refusal(whole.skip(n - rest@.len())),
        decreases rest@.len(),
    {
        let ghost k = n - rest@.len();
        let ghost before = messages.deep_view();
        let line = rest.pop().unwrap();
        proof {
            let tail = whole.skip(k);
            assert(tail[0] == line@);
            assert(tail.drop_first() =~= whole.skip(k + 1));
        }
        if line == String::from_str("OK") {
            assert(before + Seq::<Seq<char>>::empty() =~= before);
            return Ok(messages);
        }
        if starts_with(line.as_str(), "ACK") {
            assert(before + Seq::<Seq<char>>::empty() =~= before);
            return Err(AppError::MpdClient(MpdError::MpdProtocol(messages, line)));
        }
        messages.push(line);
        proof {
            assert(messages.deep_view() =~= before.push(line@));
            assert(before + (seq![line@] + reply_data(whole.skip(k + 1))) =~= before.push(line@)
                + reply_data(whole.skip(k + 1)));
        }
    }
    proof {
        assert(whole.skip(n as int) =~= Seq::<Seq<char>>::empty());
        assert(messages.deep_view() + Seq::<Seq<char>>::empty() =~= messages.deep_view());
    }
    Ok(messages)
}

} // verus!
