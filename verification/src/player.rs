//! Playback control: the command codes that steer a player, the arithmetic
//! that turns a seek request into a stream position, and the choice of how a
//! file is played.
use vstd::prelude::*;
use crate::text::{first_from, index_of, replace, replace_all, trim, trimmed};

verus! {

/// Stream time units per second (`AV_TIME_BASE`).
pub const TIME_BASE: i64 = 1_000_000;

/// `av_rescale_q(secs, 1/1, 1/AV_TIME_BASE)`: seconds to stream time, exact,
/// or `i64::MIN` when the product does not fit.
pub open spec fn secs_to_pts(secs: int) -> int {
    let m = if secs == i64::MIN {
        i64::MAX as int
    } else if secs < 0 {
        -secs
    } else {
        secs
    };
    if m * TIME_BASE > i64::MAX {
        i64::MIN as int
    } else if secs < 0 {
        -(m * TIME_BASE)
    } else {
        m * TIME_BASE
    }
}

/// `av_rescale_q(pts, 1/AV_TIME_BASE, 1/1)`: stream time to seconds, rounded
/// to the nearest second with halves away from zero.
pub open spec fn pts_to_secs(pts: int) -> int {
    if pts >= 0 {
        (pts + 500_000) / 1_000_000
    } else {
        let m = if pts == i64::MIN {
            i64::MAX as int
        } else {
            -pts
        };
        -((m + 500_000) / 1_000_000)
    }
}

/// Seconds to stream time (`Rescale::rescale(&secs, (1, 1), TIME_BASE)`).
pub fn rescale_to_pts(secs: i64) -> (r: i64)
    ensures
        r == secs_to_pts(secs as int),
{
    let m: i64 = if secs == i64::MIN {
        i64::MAX
    } else if secs < 0 {
        -secs
    } else {
        secs
    };
    if m > i64::MAX / TIME_BASE {
        i64::MIN
    } else if secs < 0 {
        -(m * TIME_BASE)
    } else {
        m * TIME_BASE
    }
}

/// Stream time to seconds (`Rescale::rescale(&pts, TIME_BASE, (1, 1))`).
pub fn rescale_to_secs(pts: i64) -> (r: i64)
    ensures
        r == pts_to_secs(pts as int),
{
    if pts >= 0 {
        pts / TIME_BASE + if pts % TIME_BASE >= TIME_BASE / 2 {
            1
        } else {
            0
        }
    } else {
        let m: i64 = if pts == i64::MIN {
            i64::MAX
        } else {
            -pts
        };
        -(m / TIME_BASE + if m % TIME_BASE >= TIME_BASE / 2 {
            1
        } else {
            0
        })
    }
}

/// Division rounding toward zero, as `/` on Rust integers does.
pub open spec fn div0(a: int, b: int) -> int {
    if a >= 0 {
        a / b
    } else {
        -((-a) / b)
    }
}

/// `|a|`.
pub open spec fn abs(a: int) -> int {
    if a < 0 {
        -a
    } else {
        a
    }
}

/// The step, in seconds, that a seek of `d` seconds actually takes from a
/// stretch of the stream that runs from `start_pts` to `end_pts`: a forward step
/// whose fourfold exceeds the stretch is cut to half the stretch, or to nothing
/// when half the stretch reaches past the end less half the fourfold step.
pub open spec fn seek_step(d: int, start_pts: int, end_pts: int) -> int {
    let edge = secs_to_pts(abs(d)) * 4;
    let span = end_pts - start_pts;
    if d > 0 && edge > span {
        if div0(span, 2) > end_pts - edge / 2 {
            0
        } else {
            pts_to_secs(div0(span, 2))
        }
    } else {
        d
    }
}

/// The position, in seconds, that a seek of `d` seconds from `so` lands on: a
/// forward seek stops short of the end (forty time units before it, less half
/// the asked and half the taken step); a backward seek stops at zero.
pub open spec fn seek_target(so: int, d: int, start_pts: int, end_pts: int) -> int {
    let step = seek_step(d, start_pts, end_pts);
    let landed = so + step;
    let limit = pts_to_secs(end_pts - 40) - abs(d) / 2 - abs(step) / 2;
    if d > 0 {
        if landed < limit {
            landed
        } else {
            limit
        }
    } else {
        if landed > 0 {
            landed
        } else {
            0
        }
    }
}

/// A backward seek (or none) moves back by exactly the asked number of
/// seconds and stops at the start: from `so`, a seek of `d <= 0` lands on
/// `so + d`, or on 0 where that would pass the start, whatever the stream.
pub proof fn law_rewind_lands(so: int, d: int, start_pts: int, end_pts: int)
    requires
        d <= 0,
    ensures
        seek_target(so, d, start_pts, end_pts) == if so + d > 0 {
            so + d
        } else {
            0
        },
        seek_target(so, d, start_pts, end_pts) >= 0,
        so + d >= 0 ==> so - seek_target(so, d, start_pts, end_pts) == -d,
{
}

/// The inputs on which the seek arithmetic stays within `i64` (the stretch
/// and the end limit are only computed for a forward seek).
pub open spec fn seek_in_range(so: int, d: int, start_pts: int, end_pts: int) -> bool {
    let step = seek_step(d, start_pts, end_pts);
    &&& d != i64::MIN
    &&& abs(d) * TIME_BASE * 4 <= i64::MAX
    &&& i64::MIN + 40 <= end_pts
    &&& d > 0 ==> i64::MIN <= end_pts - start_pts <= i64::MAX
    &&& (d > 0 && secs_to_pts(abs(d)) * 4 > end_pts - start_pts) ==> end_pts - secs_to_pts(abs(d))
        * 4 / 2 >= i64::MIN
    &&& i64::MIN <= so + step <= i64::MAX
    &&& d > 0 ==> i64::MIN <= pts_to_secs(end_pts - 40) - abs(d) / 2 - abs(step) / 2
}

/// The event a player sends when its media has ended.
pub const MEDIA_EOF: i64 = -1;

/// The event a player sends when its media has failed.
pub const MEDIA_ERR: i64 = -2;

/// The event a player sends once its media is loaded.
pub const MEDIA_LOADED: i64 = 1;

/// The control codes sent back for event `code` (see `Player::react`).
pub open spec fn reaction_controls(code: i64, has_audio: bool, has_video: bool) -> Seq<i64> {
    if code == Player::VIDEO_DEAD || code == Player::AUDIO_DEAD {
        seq![code]
    } else if code == MEDIA_EOF || code == MEDIA_ERR {
        (if has_audio {
            seq![Player::CTL_AUDIO_DIE]
        } else {
            Seq::empty()
        }) + (if has_video {
            seq![Player::CTL_VIDEO_DIE]
        } else {
            Seq::empty()
        }) + seq![Player::CTL_MUX_DIE]
    } else {
        Seq::empty()
    }
}

/// What a turn of the front end's loop does about its players before it
/// draws: rebuild every layer, poll the players' events, or neither.
pub enum Turn {
    Rebuild,
    Poll,
    Hold,
}

/// The turn taken with restarts `to_die` pending (the id 0 asks for a
/// rebuild), when the window changed size (`resized`) or a rebuild is under
/// way (`rebuilding`): a pending 0 rebuilds; otherwise the players are polled
/// unless the window changed size or a rebuild is under way.
pub fn turn(to_die: &Vec<u32>, resized: bool, rebuilding: bool) -> (t: Turn)
    ensures
        t == (if to_die@.contains(0u32) {
            Turn::Rebuild
        } else if resized || rebuilding {
            Turn::Hold
        } else {
            Turn::Poll
        }),
{
    let mut i: usize = 0;
    while i < to_die.len()
        invariant
            i <= to_die.len(),
            forall|j: int| 0 <= j < i ==> to_die@[j] != 0u32,
        decreases to_die.len() - i,
    {
        if to_die[i] == 0 {
            return Turn::Rebuild;
        }
        i += 1;
    }
    if resized || rebuilding {
        Turn::Hold
    } else {
        Turn::Poll
    }
}

/// A player: the command and event codes that pass between the demuxer, the
/// decoding threads and the application, and the decisions taken on them.
pub struct Player {
    /// Whether an audio stream is being played.
    pub has_audio: bool,
    /// Whether a video stream is being played.
    pub has_video: bool,
}

/// How a file is played.
#[derive(PartialEq, Eq, Structural, Clone, Copy, Debug)]
pub enum PlayMode {
    /// Audio and video together.
    AudioVideo,
    /// Audio alone, with nothing on screen.
    Audio,
    /// Audio alone, with a visualisation in the player's window.
    VisualizedAudio,
    /// Video alone.
    Video,
    /// Nothing to play.
    Nothing,
}

/// What a seek command asks of the demuxer.
#[derive(PartialEq, Eq, Structural, Clone, Copy, Debug)]
pub struct SeekPlan {
    /// The new position in seconds.
    pub so: i64,
    /// The stream time to seek to.
    pub target: i64,
    /// The command passed on to the decoding threads.
    pub command: i64,
    /// Whether the decoders look forward for the next key frame (`"f"`) rather
    /// than backward (`"r"`).
    pub forward: bool,
}

impl Player {
    pub const HAS_AUDIO: i32 = 1;

    pub const HAS_VIDEO: i32 = 2;

    pub const CTL_VIDEO_DIE_SILENT: i64 = -128;

    pub const CTL_AUDIO_DIE_SILENT: i64 = -64;

    pub const MUX_DEAD: i64 = -32;

    pub const VIDEO_DEAD: i64 = -16;

    pub const AUDIO_DEAD: i64 = -8;

    pub const CTL_MUX_DIE: i64 = -4;

    pub const CTL_VIDEO_DIE: i64 = -2;

    pub const CTL_AUDIO_DIE: i64 = -1;

    pub const CTL_NEXT_AUDIO: i64 = 1;

    pub const CTL_SEEK_ABS_MIN: i64 = 37000;

    pub const CTL_SEEK_ABS: i64 = 73000;

    pub const CTL_SEEK_ABS_MAX: i64 = 109000;

    pub const CTL_SEEK_REL_MIN: i64 = 145000;

    pub const CTL_SEEK_REL: i64 = 181000;

    pub const CTL_SEEK_REL_MAX: i64 = 217000;

    pub const CTL_NONE: i64 = 0x7fff_ffff_ffff_ffff;

    /// The stream flags of a file: `HAS_AUDIO` when it has an audio stream,
    /// `HAS_VIDEO` when it has a video stream.
    pub fn check(has_audio_stream: bool, has_video_stream: bool) -> (flags: i32)
        ensures
            flags == (if has_audio_stream {
                1i32
            } else {
                0i32
            }) + (if has_video_stream {
                2i32
            } else {
                0i32
            }),
    {
        let mut ret: i32 = 0;
        if has_audio_stream {
            ret = ret + Self::HAS_AUDIO;
        }
        if has_video_stream {
            ret = ret + Self::HAS_VIDEO;
        }
        ret
    }

    /// Whether a file with stream flags `flags` can be played: a video stream
    /// when audio is not wanted, an audio stream when it is.
    pub fn playable(flags: i32, use_audio: bool) -> (r: bool)
        requires
            0 <= flags <= 3,
        ensures
            r == (if use_audio {
                flags % 2 == 1
            } else {
                flags >= 2
            }),
    {
        assert((flags & 1) == flags % 2) by (bit_vector)
            requires
                0 <= flags <= 3,
        ;
        assert(((flags & 2) != 0) == (flags >= 2)) by (bit_vector)
            requires
                0 <= flags <= 3,
        ;
        !use_audio && (flags & Self::HAS_VIDEO) != 0 || use_audio && (flags & Self::HAS_AUDIO) != 0
    }

    /// How a file is played, given which of its streams are used and whether
    /// the player's window is visible.
    pub fn mode(load_audio: bool, load_video: bool, visible: bool) -> (m: PlayMode)
        ensures
            m == (if load_audio && load_video {
                PlayMode::AudioVideo
            } else if load_audio && !visible {
                PlayMode::Audio
            } else if load_audio {
                PlayMode::VisualizedAudio
            } else if load_video {
                PlayMode::Video
            } else {
                PlayMode::Nothing
            }),
    {
        if load_audio && load_video {
            PlayMode::AudioVideo
        } else if load_audio && !load_video && !visible {
            PlayMode::Audio
        } else if load_audio && !load_video && visible {
            PlayMode::VisualizedAudio
        } else if load_video && !load_audio {
            PlayMode::Video
        } else {
            PlayMode::Nothing
        }
    }

    /// The position, in seconds, that a seek of `d` seconds from `so` lands on
    /// in a stream running from `start_pts` to `end_pts`.
    pub fn pts_delta(so: i64, d: i64, start_pts: i64, end_pts: i64) -> (r: i64)
        requires
            seek_in_range(so as int, d as int, start_pts as int, end_pts as int),
        ensures
            r == seek_target(so as int, d as int, start_pts as int, end_pts as int),
            d <= 0 ==> r >= 0,
            d > 0 ==> r <= pts_to_secs(end_pts - 40) - abs(d as int) / 2,
    {
        let mut d = d;
        let ad: i64 = if d < 0 {
            -d
        } else {
            d
        };
        let pp = rescale_to_pts(ad);
        assert(pp == ad * TIME_BASE);
        let pts_edge = pp * 4;
        let mso = rescale_to_secs(end_pts - 40) - ad / 2;
        let fwd = d > 0;
        if d > 0 {
            if pts_edge > end_pts - start_pts {
                d = rescale_to_secs((end_pts - start_pts) / 2);
                if (end_pts - start_pts) / 2 > end_pts - pts_edge / 2 {
                    d = 0;
                }
            }
        }
        let so = so + d;
        let eds = (if d < 0 {
            -d
        } else {
            d
        }) / 2;
        if fwd {
            if so < mso - eds {
                so
            } else {
                mso - eds
            }
        } else {
            if so > 0 {
                so
            } else {
                0
            }
        }
    }

    /// The audio stream to play among `count` streams: the one `ofs` places
    /// after the best audio stream `best` (counting round), unless that is the
    /// video stream `video`, when the best audio stream stays.
    pub fn audio_index(best: u32, ofs: u32, count: u32, video: Option<u32>) -> (r: u32)
        requires
            count > 0,
            best + ofs <= u32::MAX,
        ensures
            r == (if video == Some(((best + ofs) % (count as int)) as u32) {
                best
            } else {
                ((best + ofs) % (count as int)) as u32
            }),
    {
        let b = (best + ofs) % count;
        match video {
            Some(v) => if v == b {
                best
            } else {
                b
            },
            None => b,
        }
    }

    /// How many more times a stopping player's event queue is polled for a
    /// part's end after the first.
    pub const DEATH_POLLS: i32 = 25;

    /// The parts a player stops, in order, each as the control code that
    /// tells it to die and the event code that reports it dead: the audio
    /// thread when there is one, the video thread when there is one, then
    /// the demuxer.
    pub fn kill_order(has_audio: bool, has_video: bool) -> (r: Vec<(i64, i64)>)
        ensures
            r@ == (if has_audio {
                seq![(Player::CTL_AUDIO_DIE, Player::AUDIO_DEAD)]
            } else {
                Seq::empty()
            }) + (if has_video {
                seq![(Player::CTL_VIDEO_DIE, Player::VIDEO_DEAD)]
            } else {
                Seq::empty()
            }) + seq![(Player::CTL_MUX_DIE, Player::MUX_DEAD)],
    {
        let mut r: Vec<(i64, i64)> = Vec::new();
        if has_audio {
            r.push((Player::CTL_AUDIO_DIE, Player::AUDIO_DEAD));
        }
        if has_video {
            r.push((Player::CTL_VIDEO_DIE, Player::VIDEO_DEAD));
        }
        r.push((Player::CTL_MUX_DIE, Player::MUX_DEAD));
        r
    }

    /// One poll while awaiting event `awaited` with `left` polls to go after
    /// this one: the wait ends (nothing) when the awaited event came, else it
    /// goes on with one poll less; the caller stops once none are left.
    pub fn await_more(left: i32, got: Option<i64>, awaited: i64) -> (r: Option<i32>)
        requires
            left > i32::MIN,
        ensures
            r == (if got == Some(awaited) {
                None
            } else {
                Some((left - 1) as i32)
            }),
    {
        match got {
            Some(c) => if c == awaited {
                return None;
            },
            None => {},
        }
        Some(left - 1)
    }

    /// The front end's answer to event `code` from a player with the given
    /// parts: the control codes it sends back, in order, and whether the
    /// player's visual is to be started again. A thread that reports itself
    /// dead gets its own code back; the end or failure of the media makes the
    /// player stop all its parts (see `kill_order`) and be started again; any
    /// other event is let pass.
    pub fn react(code: i64, has_audio: bool, has_video: bool) -> (r: (Vec<i64>, bool))
        ensures
            r.0@ == reaction_controls(code, has_audio, has_video),
            r.1 == (code == MEDIA_EOF || code == MEDIA_ERR),
    {
        let mut c: Vec<i64> = Vec::new();
        if code == Player::VIDEO_DEAD || code == Player::AUDIO_DEAD {
            c.push(code);
            (c, false)
        } else if code == MEDIA_EOF || code == MEDIA_ERR {
            if has_audio {
                c.push(Player::CTL_AUDIO_DIE);
            }
            if has_video {
                c.push(Player::CTL_VIDEO_DIE);
            }
            c.push(Player::CTL_MUX_DIE);
            (c, true)
        } else {
            (c, false)
        }
    }

    /// Where playing starts in a stream of `end_pts` time units, for a start
    /// of `start` whole seconds (from the end when negative; none when zero):
    /// the start in seconds, the start in stream time, and the stream time
    /// left from there.
    pub fn start_point(start: i64, end_pts: i64) -> (r: (i64, i64, i64))
        requires
            -0x100_0000_0000 <= start <= 0x100_0000_0000,
            -0x1000_0000_0000_0000 <= end_pts <= 0x1000_0000_0000_0000,
        ensures
            start == 0 ==> r == (0i64, 0i64, end_pts),
            start != 0 ==> ({
                let s = if start < 0 {
                    pts_to_secs(end_pts as int) + start
                } else {
                    start as int
                };
                r == (s as i64, secs_to_pts(s) as i64, (end_pts - secs_to_pts(s)) as i64)
            }),
    {
        if start == 0 {
            return (0, 0, end_pts);
        }
        let mut s = start;
        if s < 0 {
            let e = rescale_to_secs(end_pts);
            assert(-0x200_0000_0000 <= e <= 0x200_0000_0000);
            s = e + s;
        }
        assert(-0x300_0000_0000 <= s <= 0x300_0000_0000);
        let start_pts = rescale_to_pts(s);
        assert(start_pts == s * TIME_BASE);
        (s, start_pts, end_pts - start_pts)
    }

    /// Whether `cv` asks for a seek to an absolute position.
    pub open spec fn is_seek_abs(cv: int) -> bool {
        Self::CTL_SEEK_ABS_MIN <= cv <= Self::CTL_SEEK_ABS_MAX
    }

    /// Whether `cv` asks for a seek relative to the current position.
    pub open spec fn is_seek_rel(cv: int) -> bool {
        Self::CTL_SEEK_REL_MIN <= cv <= Self::CTL_SEEK_REL_MAX
    }

    /// The plan for seek command `cv`, taken while the demuxer stands at packet
    /// time `npts` (0 when the packet has none) and position `so`, in a stream of
    /// `end_pts` time units (`end_secs` seconds): an absolute seek above the
    /// centre code goes that many seconds from the start, at or below it that
    /// many seconds from the end; a relative seek moves from the packet's time and
    /// is dropped when the packet has none.
    pub fn plan_seek(cv: i64, so: i64, npts: i64, end_pts: i64, end_secs: i64) -> (r: Option<
        SeekPlan,
    >)
        requires
            0 <= end_pts <= 0x1000_0000_0000_0000,
            0 <= npts <= 0x1000_0000_0000_0000,
            -0x1000_0000 <= so <= 0x1000_0000,
            -0x1000_0000 <= end_secs <= 0x1000_0000,
        ensures
            Self::is_seek_abs(cv as int) ==> ({
                let from = if cv > Self::CTL_SEEK_ABS {
                    0
                } else {
                    end_secs as int
                };
                let pos = seek_target(from, cv - Self::CTL_SEEK_ABS, 0, end_pts as int);
                r == Some(
                    SeekPlan {
                        so: pos as i64,
                        target: secs_to_pts(pos) as i64,
                        command: Self::CTL_SEEK_ABS,
                        forward: secs_to_pts(pos) > npts,
                    },
                )
            }),
            Self::is_seek_rel(cv as int) ==> (if npts == 0 {
                r is None
            } else {
                let pos = seek_target(so as int, cv - Self::CTL_SEEK_REL, npts as int, end_pts as int);
                r == Some(
                    SeekPlan {
                        so: pos as i64,
                        target: (npts + secs_to_pts(pos)) as i64,
                        command: Self::CTL_SEEK_REL,
                        forward: cv > Self::CTL_SEEK_REL,
                    },
                )
            }),
            !Self::is_seek_abs(cv as int) && !Self::is_seek_rel(cv as int) ==> r is None,
    {
        if cv >= Self::CTL_SEEK_ABS_MIN && cv <= Self::CTL_SEEK_ABS_MAX {
            let from = if cv > Self::CTL_SEEK_ABS {
                0
            } else {
                end_secs
            };
            let d = cv - Self::CTL_SEEK_ABS;
            proof {
                lemma_seek_bounds(from as int, d as int, 0, end_pts as int);
            }
            let pos = Self::pts_delta(from, d, 0, end_pts);
            let target = rescale_to_pts(pos);
            Some(SeekPlan { so: pos, target, command: Self::CTL_SEEK_ABS, forward: target > npts })
        } else if cv >= Self::CTL_SEEK_REL_MIN && cv <= Self::CTL_SEEK_REL_MAX {
            if npts != 0 {
                let d = cv - Self::CTL_SEEK_REL;
                proof {
                    lemma_seek_bounds(so as int, d as int, npts as int, end_pts as int);
                }
                let pos = Self::pts_delta(so, d, npts, end_pts);
                let t = rescale_to_pts(pos);
                Some(
                    SeekPlan {
                        so: pos,
                        target: npts + t,
                        command: Self::CTL_SEEK_REL,
                        forward: d > 0,
                    },
                )
            } else {
                None
            }
        } else {
            None
        }
    }
}

proof fn lemma_seek_bounds(so: int, d: int, start_pts: int, end_pts: int)
    requires
        -36000 <= d <= 36000,
        -0x1000_0000 <= so <= 0x1000_0000,
        0 <= start_pts <= 0x1000_0000_0000_0000,
        0 <= end_pts <= 0x1000_0000_0000_0000,
    ensures
        seek_in_range(so, d, start_pts, end_pts),
        -0x400_0000_0000 <= seek_target(so, d, start_pts, end_pts) <= 0x400_0000_0000,
{
    let step = seek_step(d, start_pts, end_pts);
    assert(secs_to_pts(abs(d)) == abs(d) * TIME_BASE);
    let lim0 = pts_to_secs(end_pts - 40);
    assert(-1 <= lim0 <= 0x200_0000_0000);
    let span = end_pts - start_pts;
    assert(-0x1000_0000_0000_0000 <= span <= 0x1000_0000_0000_0000);
    assert(-0x800_0000_0000_0000 <= div0(span, 2) <= 0x800_0000_0000_0000);
    if d > 0 && secs_to_pts(abs(d)) * 4 > span {
        assert(-0x100_0000_0000 <= pts_to_secs(div0(span, 2)) <= 0x100_0000_0000);
    }
    assert(-0x100_0000_0000 <= step <= 0x100_0000_0000);
}


// ---------------------------------------------------------------------------
// Loudness report
// ---------------------------------------------------------------------------

/// The loudness range that an `ebur128` report gives in its summary: the text
/// after `LRA:` and one more character, up to the end of that line, with the
/// unit `LU` removed and surrounding white space trimmed. None where the
/// report has no summary, the summary no `LRA:`, the character after it is
/// missing or not ASCII (a byte offset would fall inside it), or the line
/// has no end.
pub open spec fn lra_field(report: Seq<char>) -> Option<Seq<char>> {
    match first_from(report, "Summary:"@, 0) {
        None => None,
        Some(si) => {
            let t = report.skip(si);
            match first_from(t, "LRA:"@, 0) {
                None => None,
                Some(li) => if li + 4 < t.len() && (t[li + 4] as u32) < 0x80 {
                    let p = t.skip(li + 5);
                    match first_from(p, "\n"@, 0) {
                        None => None,
                        Some(le) => Some(trim(replace_all(p.take(le), "LU"@, Seq::empty()))),
                    }
                } else {
                    None
                },
            }
        },
    }
}

/// The loudness-range field of an `ebur128` report (see `lra_field`); the
/// caller reads it as a number.
pub fn loudness_range(report: &Vec<char>) -> (r: Option<Vec<char>>)
    ensures
        r matches Some(v) ==> lra_field(report@) == Some(v@),
        r is None ==> lra_field(report@) is None,
{
    proof {
        reveal_strlit("Summary:");
        reveal_strlit("LRA:");
        reveal_strlit("\n");
        reveal_strlit("LU");
    }
    let summary: Vec<char> = vec!['S', 'u', 'm', 'm', 'a', 'r', 'y', ':'];
    let lra: Vec<char> = vec!['L', 'R', 'A', ':'];
    let nl: Vec<char> = vec!['\n'];
    let unit: Vec<char> = vec!['L', 'U'];
    assert(summary@ =~= "Summary:"@);
    assert(lra@ =~= "LRA:"@);
    assert(nl@ =~= "\n"@);
    assert(unit@ =~= "LU"@);
    let si: usize = match index_of(report, &summary) {
        None => return None,
        Some(si) => si,
    };
    let mut t: Vec<char> = Vec::new();
    let mut k: usize = si;
    while k < report.len()
        invariant
            si <= k <= report.len(),
            t@ =~= report@.subrange(si as int, k as int),
        decreases report.len() - k,
    {
        t.push(report[k]);
        k += 1;
    }
    assert(t@ =~= report@.skip(si as int));
    let li: usize = match index_of(&t, &lra) {
        None => return None,
        Some(li) => li,
    };
    if !(t.len() - li > 4 && (t[li + 4] as u32) < 0x80u32) {
        return None;
    }
    let mut p: Vec<char> = Vec::new();
    let mut k: usize = li + 5;
    while k < t.len()
        invariant
            li + 5 <= k <= t.len(),
            p@ =~= t@.subrange(li + 5, k as int),
        decreases t.len() - k,
    {
        p.push(t[k]);
        k += 1;
    }
    assert(p@ =~= t@.skip(li + 5));
    let le: usize = match index_of(&p, &nl) {
        None => return None,
        Some(le) => le,
    };
    let mut line: Vec<char> = Vec::new();
    let mut k: usize = 0;
    while k < le
        invariant
            k <= le,
            first_from(p@, nl@, 0) == Some(le as int),
            le <= p.len(),
            line@ =~= p@.take(k as int),
        decreases le - k,
    {
        line.push(p[k]);
        k += 1;
    }
    let cut = replace(&line, &unit, &Vec::new());
    Some(trimmed(&cut))
}

} // verus!
