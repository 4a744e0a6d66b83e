//! The capturer's clip saver: where clips go, how they are named, and how
//! the timestamps of a clip's video and audio packets are lined up.
use vstd::prelude::*;
use vstd::string::StringExecFns;
use crate::packet::Packet;
use crate::save::{
    default_name_of, file_name_candidate, max_pts, min_pts, pts_bounds, shift_fits, shift_timestamps,
    shifted, three_digits,
};

verus! {

/// The timestamp figures of a saved clip.
pub struct ClipTimestamps {
    pub video_min: i64,
    pub video_max: i64,
    pub audio_min: i64,
    pub audio_max: i64,
    /// The offset the audio timestamps were moved back by.
    pub audio_offset: i64,
}

/// Every packet of `after` is the packet of `before` at the same index with
/// its timestamps moved back by `offset`.
pub open spec fn shifted_by(before: Seq<Packet>, after: Seq<Packet>, offset: i64) -> bool {
    &&& after.len() == before.len()
    &&& forall|i: int| 0 <= i < after.len() ==> {
        &&& (#[trigger] after[i]).pts == shifted(before[i].pts, offset)
        &&& after[i].dts == shifted(before[i].dts, offset)
        &&& after[i].data == before[i].data
        &&& after[i].duration == before[i].duration
        &&& after[i].is_key == before[i].is_key
    }
}

/// Where a capturer's clips are saved and how they are named.
pub struct Saver {
    pub out_dir_path: String,
    pub base_file_name: String,
    pub extension: String,
    pub sound_dir: String,
    pub preferred_sound_file_name: Option<String>,
}

impl Saver {
    /// Clips go to `out_dir_path`, named after `base_file_name` with
    /// `extension` (which includes its dot); sounds come from `sounds`, with
    /// no preferred file.
    pub fn new(out_dir_path: String, base_file_name: String, extension: String) -> (s: Self)
        ensures
            s.out_dir_path@ == out_dir_path@,
            s.base_file_name@ == base_file_name@,
            s.extension@ == extension@,
            s.sound_dir@ == "sounds"@,
            s.preferred_sound_file_name is None,
    {
        Saver {
            out_dir_path,
            base_file_name,
            extension,
            sound_dir: String::from_str("sounds"),
            preferred_sound_file_name: None,
        }
    }

    /// The name tried at `attempt` for a clip saved at time stamp `stamp`:
    /// `out_dir_path/base_file_name_stamp`, then for attempts 1 to 999 `_`
    /// and the attempt in three digits, then the extension.
    pub fn candidate_name(&self, stamp: &str, attempt: u32) -> (name: String)
        requires
            attempt <= 999,
        ensures
            ({
                let d = default_name_of(self.out_dir_path@, self.base_file_name@, stamp@);
                &&& attempt == 0 ==> name@ == d + self.extension@
                &&& attempt > 0 ==> name@ == d + seq!['_'] + three_digits(attempt as int) + self.extension@
            }),
    {
        let mut d = self.out_dir_path.clone();
        d.push('/');
        d.append(self.base_file_name.as_str());
        d.push('_');
        d.append(stamp);
        assert(d@ =~= default_name_of(self.out_dir_path@, self.base_file_name@, stamp@));
        file_name_candidate(d.as_str(), attempt, self.extension.as_str())
    }

    /// Moves the presentation and decoding timestamps of every packet back
    /// by `offset`; absent timestamps stay absent and nothing else changes.
    pub fn adjust_pts(packets: &mut Vec<Packet>, offset: i64)
        requires
            shift_fits(old(packets)@, offset),
        ensures
            shifted_by(old(packets)@, final(packets)@, offset),
    {
        shift_timestamps(packets, offset);
    }

    /// Lines up a clip's packets: the video timestamps are moved back so
    /// the earliest becomes 0, and the audio timestamps are moved back by
    /// one video frame less, at 1600 audio samples per video frame (48 kHz
    /// audio against 30 fps video). Returns the timestamp bounds found and
    /// the audio offset used.
    pub fn align_timestamps(video_packets: &mut Vec<Packet>, audio_packets: &mut Vec<Packet>) -> (t: ClipTimestamps)
        requires
            shift_fits(old(video_packets)@, min_pts(old(video_packets)@)),
            i64::MIN <= (min_pts(old(video_packets)@) - 1) * 1600 <= i64::MAX,
            shift_fits(old(audio_packets)@, ((min_pts(old(video_packets)@) - 1) * 1600) as i64),
        ensures
            t.video_min == min_pts(old(video_packets)@),
            t.video_max == max_pts(old(video_packets)@),
            t.audio_min == min_pts(old(audio_packets)@),
            t.audio_max == max_pts(old(audio_packets)@),
            t.audio_offset == (t.video_min - 1) * 1600,
            shifted_by(old(video_packets)@, final(video_packets)@, t.video_min),
            shifted_by(old(audio_packets)@, final(audio_packets)@, t.audio_offset),
    {
        let (offset, max) = pts_bounds(video_packets);
        Self::adjust_pts(video_packets, offset);
        let audio_offset = (offset - 1) * 1600;
        let (audio_min, audio_max) = pts_bounds(audio_packets);
        Self::adjust_pts(audio_packets, audio_offset);
        ClipTimestamps { video_min: offset, video_max: max, audio_min, audio_max, audio_offset }
    }
}

} // verus!
