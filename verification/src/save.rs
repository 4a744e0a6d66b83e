//! Rules applied when a clip is saved: timestamp shifting, stream time
//! bases, the names of output files and the choice of the notification
//! sound.
use rand::seq::IteratorRandom;
use vstd::prelude::*;
use vstd::string::StringExecFns;
use crate::packet::{Packet, PacketView, packet_views};

verus! {

/// `String::push` appends one character.
pub assume_specification[ String::push ](s: &mut String, ch: char)
    ensures
        final(s)@ == old(s)@.push(ch),
;

/// The decimal digit character for `d` (0 to 9).
pub open spec fn digit_char(d: int) -> char {
    (48 + d) as char
}

/// `n` (0 to 999) written with exactly three decimal digits.
pub open spec fn three_digits(n: int) -> Seq<char> {
    seq![digit_char(n / 100), digit_char((n / 10) % 10), digit_char(n % 10)]
}

/// The character of decimal digit `d`.
fn digit(d: u32) -> (c: char)
    requires
        d < 10,
    ensures
        c == digit_char(d as int),
{
    let b: u8 = 48u8 + (d as u8);
    b as char
}

/// The name tried at `attempt` for a clip whose name without extension is
/// `default_name`: attempt 0 is `default_name` followed by `extension`;
/// attempt `i` from 1 to 999 inserts `_` and `i` written with three digits
/// before the extension.
pub fn file_name_candidate(default_name: &str, attempt: u32, extension: &str) -> (name: String)
    requires
        attempt <= 999,
    ensures
        attempt == 0 ==> name@ == default_name@ + extension@,
        attempt > 0 ==> name@ == default_name@ + seq!['_'] + three_digits(attempt as int) + extension@,
        name@ == candidate_of(default_name@, attempt as int, extension@),
{
    let mut name = String::from_str(default_name);
    if attempt > 0 {
        name.push('_');
        name.push(digit(attempt / 100));
        name.push(digit((attempt / 10) % 10));
        name.push(digit(attempt % 10));
        assert(name@ =~= default_name@ + seq!['_'] + three_digits(attempt as int));
    }
    name.append(extension);
    name
}

/// What to do after probing the name of one attempt.
#[derive(PartialEq, Eq, Structural, Clone, Copy, Debug)]
pub enum FileNameStep {
    /// The probed name is free: use it.
    Use,
    /// The probed name is taken: probe this attempt next.
    TryNext(u32),
    /// All 999 numbered names are taken as well.
    Exhausted,
}

/// The search for a free file name: the first try, then the numbered names
/// from 1 to 999, in order, until one is free.
pub fn next_file_name_step(attempt: u32, taken: bool) -> (step: FileNameStep)
    requires
        attempt <= 999,
    ensures
        !taken ==> step == FileNameStep::Use,
        taken && attempt < 999 ==> step == FileNameStep::TryNext((attempt + 1) as u32),
        taken && attempt == 999 ==> step == FileNameStep::Exhausted,
{
    if !taken {
        FileNameStep::Use
    } else if attempt < 999 {
        FileNameStep::TryNext(attempt + 1)
    } else {
        FileNameStep::Exhausted
    }
}

/// Whether `c` is a decimal digit.
pub open spec fn is_digit(c: char) -> bool {
    48 <= (c as u32) <= 57
}

/// Whether every character of `s` is a decimal digit.
pub open spec fn all_digits(s: Seq<char>) -> bool {
    forall|i: int| 0 <= i < s.len() ==> is_digit(#[trigger] s[i])
}

/// A year as the `%Y` specifier writes it: four digits for the years 0 to
/// 9999, otherwise a sign followed by at least four digits.
pub open spec fn year_text(s: Seq<char>) -> bool {
    ||| s.len() == 4 && all_digits(s)
    ||| s.len() >= 5 && (s[0] == '+' || s[0] == '-') && all_digits(s.skip(1))
}

/// A time stamp as `%Y%m%d_%H%M%S` writes it: the year, the month and the
/// day as two digits each, `_`, then hour, minute and second as two digits
/// each. For the years 0 to 9999 that is eight digits, `_` and six digits.
pub open spec fn time_stamp_text(s: Seq<char>) -> bool {
    let n = s.len() as int;
    &&& n >= 15
    &&& year_text(s.take(n - 11))
    &&& all_digits(s.subrange(n - 11, n - 7))
    &&& s[n - 7] == '_'
    &&& all_digits(s.subrange(n - 6, n))
}

/// `chrono::Local::now().format(pattern).to_string()` for the pattern
/// `%Y%m%d_%H%M%S`, which chrono always formats: the current local time as
/// year, month, day, `_`, hour, minute, second, each field zero-padded to
/// two digits and the year to four, with a sign before years outside 0 to
/// 9999. Which time it is depends on the clock and the time zone and is not
/// claimed.
#[verifier::external_body]
fn local_time_formatted(pattern: &str) -> (r: String)
    requires
        pattern@ == "%Y%m%d_%H%M%S"@,
    ensures
        time_stamp_text(r@),
{
    chrono::Local::now().format(pattern).to_string()
}

/// `rand::seq::IteratorRandom::choose` over the names, with the thread's
/// random generator: `None` exactly when there is no name, else one of the
/// names.
#[verifier::external_body]
fn choose_name(names: &Vec<String>) -> (r: Option<String>)
    ensures
        r is None <==> names@.len() == 0,
        r matches Some(n) ==> exists|i: int| 0 <= i < names@.len() && (#[trigger] names@[i])@ == n@,
{
    names.iter().choose(&mut rand::rng()).cloned()
}

/// The name of a clip without extension: `out_dir_path/base_file_name_stamp`.
pub open spec fn default_name_of(out_dir_path: Seq<char>, base_file_name: Seq<char>, stamp: Seq<char>) -> Seq<char> {
    out_dir_path + seq!['/'] + base_file_name + seq!['_'] + stamp
}

/// Where saved clips go and how they are named, and which notification
/// sound is played.
pub struct SaverEnv {
    pub out_dir_path: String,
    pub base_file_name: String,
    pub sound_dir: String,
    pub preferred_sound_file_name: Option<String>,
}

impl SaverEnv {
    /// Clips go to `out_dir_path` and are named after `base_file_name`;
    /// sounds come from `sounds`, with no preferred file.
    pub fn new(out_dir_path: String, base_file_name: String) -> (env: Self)
        ensures
            env.out_dir_path@ == out_dir_path@,
            env.base_file_name@ == base_file_name@,
            env.sound_dir@ == "sounds"@,
            env.preferred_sound_file_name is None,
    {
        SaverEnv {
            out_dir_path,
            base_file_name,
            sound_dir: String::from_str("sounds"),
            preferred_sound_file_name: None,
        }
    }

    /// The clip name without extension for the time stamp `stamp`.
    pub fn default_name(&self, stamp: &str) -> (name: String)
        ensures
            name@ == default_name_of(self.out_dir_path@, self.base_file_name@, stamp@),
    {
        let mut name = self.out_dir_path.clone();
        name.push('/');
        name.append(self.base_file_name.as_str());
        name.push('_');
        name.append(stamp);
        assert(name@ =~= default_name_of(self.out_dir_path@, self.base_file_name@, stamp@));
        name
    }

    /// The clip name without extension for the current local time, written
    /// as year, month and day, `_`, hour, minute and second.
    pub fn current_default_name(&self) -> (name: String)
        ensures
            exists|stamp: Seq<char>|
                time_stamp_text(stamp) && name@ == default_name_of(self.out_dir_path@, self.base_file_name@, stamp),
    {
        let stamp = local_time_formatted("%Y%m%d_%H%M%S");
        self.default_name(stamp.as_str())
    }

    /// The name tried at `attempt` for the clip named `default_name` with
    /// file extension `extension` (given without its dot): attempt 0 is
    /// `default_name.extension`, attempt `i` from 1 to 999 is
    /// `default_name_iii.extension` with `i` written in three digits.
    pub fn candidate_name(&self, default_name: &str, attempt: u32, extension: &str) -> (name: String)
        requires
            attempt <= 999,
        ensures
            attempt == 0 ==> name@ == default_name@ + seq!['.'] + extension@,
            attempt > 0 ==> name@ == default_name@ + seq!['_'] + three_digits(attempt as int) + seq!['.'] + extension@,
    {
        let mut dotted = String::new();
        dotted.push('.');
        dotted.append(extension);
        let name = file_name_candidate(default_name, attempt, dotted.as_str());
        assert(dotted@ =~= seq!['.'] + extension@);
        assert(default_name@ + dotted@ =~= default_name@ + seq!['.'] + extension@);
        assert(default_name@ + seq!['_'] + three_digits(attempt as int) + dotted@ =~= default_name@ + seq!['_']
            + three_digits(attempt as int) + seq!['.'] + extension@);
        name
    }

    /// The name of the file a new save is written to: the given name, or
    /// else (`None`) the name found by probing the candidates for the `mp4`
    /// extension, which the caller does with [`file_name_candidate`] and
    /// [`next_file_name_step`].
    pub fn save_file_name(&self, file_name: Option<String>, probed_name: String) -> (name: String)
        ensures
            file_name matches Some(f) ==> name@ == f@,
            file_name is None ==> name@ == probed_name@,
    {
        match file_name {
            Some(f) => f,
            None => probed_name,
        }
    }
}

/// The name of the notification sound to play: the preferred file when one
/// is set, else one of the `mp3` files of the sound directory chosen at
/// random. There must be one or the other.
pub fn pick_sound_file(preferred: &Option<String>, mp3_files: &Vec<String>) -> (r: String)
    requires
        preferred is Some || mp3_files@.len() > 0,
    ensures
        preferred matches Some(p) ==> r@ == p@,
        preferred is None ==> exists|i: int| 0 <= i < mp3_files@.len() && (#[trigger] mp3_files@[i])@ == r@,
{
    match preferred {
        Some(p) => p.clone(),
        None => choose_name(mp3_files).unwrap(),
    }
}

/// The time base of a saved stream: one frame period for video, one
/// sample period for audio.
pub fn stream_time_base(is_video_else_audio: bool, framerate_num: i32, framerate_den: i32, sample_rate: i32) -> (tb: (i32, i32))
    ensures
        is_video_else_audio ==> tb == (framerate_den, framerate_num),
        !is_video_else_audio ==> tb == (1i32, sample_rate),
{
    if is_video_else_audio {
        (framerate_den, framerate_num)
    } else {
        (1, sample_rate)
    }
}

/// The smallest presentation timestamp (a packet without one counts as
/// `i64::MAX`), or 0 for no packet.
pub open spec fn min_pts(packets: Seq<Packet>) -> i64
    decreases packets.len(),
{
    if packets.len() == 0 {
        0
    } else {
        let p = match packets.last().pts { Some(t) => t, None => i64::MAX };
        if packets.len() == 1 {
            p
        } else {
            let m = min_pts(packets.drop_last());
            if p < m { p } else { m }
        }
    }
}

/// The largest presentation timestamp (a packet without one counts as
/// `i64::MIN`), or 0 for no packet.
pub open spec fn max_pts(packets: Seq<Packet>) -> i64
    decreases packets.len(),
{
    if packets.len() == 0 {
        0
    } else {
        let p = match packets.last().pts { Some(t) => t, None => i64::MIN };
        if packets.len() == 1 {
            p
        } else {
            let m = max_pts(packets.drop_last());
            if p > m { p } else { m }
        }
    }
}

/// The smallest and the largest presentation timestamps of `packets`.
pub fn pts_bounds(packets: &Vec<Packet>) -> (b: (i64, i64))
    ensures
        b.0 == min_pts(packets@),
        b.1 == max_pts(packets@),
{
    let mut lo: i64 = 0;
    let mut hi: i64 = 0;
    let mut i: usize = 0;
    while i < packets.len()
        invariant
            i <= packets@.len(),
            lo == min_pts(packets@.take(i as int)),
            hi == max_pts(packets@.take(i as int)),
        decreases packets@.len() - i,
    {
        let lo_p = match packets[i].pts { Some(t) => t, None => i64::MAX };
        let hi_p = match packets[i].pts { Some(t) => t, None => i64::MIN };
        proof {
            assert(packets@.take(i as int + 1).drop_last() =~= packets@.take(i as int));
        }
        if i == 0 {
            lo = lo_p;
            hi = hi_p;
        } else {
            if lo_p < lo {
                lo = lo_p;
            }
            if hi_p > hi {
                hi = hi_p;
            }
        }
        i = i + 1;
    }
    proof {
        assert(packets@.take(i as int) =~= packets@);
    }
    (lo, hi)
}

/// A timestamp moved back by `offset`.
pub open spec fn shifted(ts: Option<i64>, offset: i64) -> Option<i64> {
    match ts {
        Some(t) => Some((t - offset) as i64),
        None => None,
    }
}

/// Shifting every present timestamp back by `offset` stays within `i64`.
pub open spec fn shift_fits(packets: Seq<Packet>, offset: i64) -> bool {
    forall|i: int| 0 <= i < packets.len() ==> {
        &&& (#[trigger] packets[i]).pts matches Some(t) ==> i64::MIN <= t - offset <= i64::MAX
        &&& packets[i].dts matches Some(t) ==> i64::MIN <= t - offset <= i64::MAX
    }
}

/// Moves the presentation and decoding timestamps of every packet back by
/// `offset`; absent timestamps stay absent and nothing else changes.
pub(crate) fn shift_timestamps(packets: &mut Vec<Packet>, offset: i64)
    requires
        shift_fits(old(packets)@, offset),
    ensures
        final(packets)@.len() == old(packets)@.len(),
        forall|i: int| 0 <= i < final(packets)@.len() ==> {
            &&& (#[trigger] final(packets)@[i]).pts == shifted(old(packets)@[i].pts, offset)
            &&& final(packets)@[i].dts == shifted(old(packets)@[i].dts, offset)
            &&& final(packets)@[i].data == old(packets)@[i].data
            &&& final(packets)@[i].duration == old(packets)@[i].duration
            &&& final(packets)@[i].is_key == old(packets)@[i].is_key
        },
{
    let ghost orig = packets@;
    let mut i: usize = 0;
    while i < packets.len()
        invariant
            i <= packets@.len(),
            packets@.len() == orig.len(),
            shift_fits(orig, offset),
            forall|k: int| i <= k < packets@.len() ==> #[trigger] packets@[k] == orig[k],
            forall|k: int| 0 <= k < i ==> {
                &&& (#[trigger] packets@[k]).pts == shifted(orig[k].pts, offset)
                &&& packets@[k].dts == shifted(orig[k].dts, offset)
                &&& packets@[k].data == orig[k].data
                &&& packets@[k].duration == orig[k].duration
                &&& packets@[k].is_key == orig[k].is_key
            },
        decreases packets@.len() - i,
    {
        let mut p = packets.remove(i);
        assert(p == orig[i as int]);
        if let Some(t) = p.pts {
            p.pts = Some(t - offset);
        }
        if let Some(t) = p.dts {
            p.dts = Some(t - offset);
        }
        packets.insert(i, p);
        i = i + 1;
    }
}

/// The name probed at `attempt` (0 to 999) for a clip named `default_name`
/// with extension `extension`, as [`file_name_candidate`] builds it.
pub open spec fn candidate_of(default_name: Seq<char>, attempt: int, extension: Seq<char>) -> Seq<char> {
    if attempt == 0 {
        default_name + extension
    } else {
        default_name + seq!['_'] + three_digits(attempt) + extension
    }
}

/// Numbers from 1 to 999 are written with different three-digit strings.
proof fn lemma_three_digits_injective(a: int, b: int)
    requires
        0 <= a <= 999,
        0 <= b <= 999,
        three_digits(a) == three_digits(b),
    ensures
        a == b,
{
    assert(three_digits(a)[0] == three_digits(b)[0]);
    assert(three_digits(a)[1] == three_digits(b)[1]);
    assert(three_digits(a)[2] == three_digits(b)[2]);
    assert(a / 100 == b / 100);
    assert((a / 10) % 10 == (b / 10) % 10);
    assert(a % 10 == b % 10);
    assert(a == 100 * (a / 100) + 10 * ((a / 10) % 10) + a % 10);
    assert(b == 100 * (b / 100) + 10 * ((b / 10) % 10) + b % 10);
}

/// Every attempt of the search for a free file name probes a name of its
/// own: two different attempts never probe the same name, so the search
/// tries a thousand different names before it gives up.
pub proof fn law_candidate_names_distinct(default_name: Seq<char>, extension: Seq<char>, a: int, b: int)
    requires
        0 <= a <= 999,
        0 <= b <= 999,
        a != b,
    ensures
        candidate_of(default_name, a, extension) != candidate_of(default_name, b, extension),
{
    let ca = candidate_of(default_name, a, extension);
    let cb = candidate_of(default_name, b, extension);
    if a != 0 && b != 0 {
        let d = default_name.len() as int;
        if ca == cb {
            assert forall|i: int| 0 <= i < 3 implies three_digits(a)[i] == three_digits(b)[i] by {
                assert(ca[d + 1 + i] == three_digits(a)[i]);
                assert(cb[d + 1 + i] == three_digits(b)[i]);
            }
            assert(three_digits(a) =~= three_digits(b));
            lemma_three_digits_injective(a, b);
        }
    } else {
        assert(ca.len() != cb.len());
    }
}


} // verus!
