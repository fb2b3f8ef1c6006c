use vstd::prelude::*;
use crate::path::{file_name, file_name_spec};
use crate::stamp::{folder_stamp, parse_folder_stamp, Timestamp};

verus! {

/// One of the recorder's four cameras.
#[derive(Clone, Copy, Debug, PartialEq, Eq, Structural)]
pub enum Camera {
    Front,
    LeftRepeater,
    RightRepeater,
    Back,
}

impl Camera {
    /// The name by which the recorder marks this camera's files.
    pub open spec fn name(self) -> Seq<char> {
        match self {
            Camera::Front => "front"@,
            Camera::LeftRepeater => "left_repeater"@,
            Camera::RightRepeater => "right_repeater"@,
            Camera::Back => "back"@,
        }
    }

    pub fn camera_file_name(&self) -> (r: &'static str)
        ensures
            r@ == self.name(),
    {
        match self {
            Camera::Front => "front",
            Camera::LeftRepeater => "left_repeater",
            Camera::RightRepeater => "right_repeater",
            Camera::Back => "back",
        }
    }
}

/// Whether two texts are the same.
fn same_text(a: &str, b: &str) -> (r: bool)
    ensures
        r == (a@ == b@),
{
    let n = a.unicode_len();
    if n != b.unicode_len() {
        return false;
    }
    let mut i: usize = 0;
    while i < n
        invariant
            n == a@.len() == b@.len(),
            i <= n,
            forall|j: int| 0 <= j < i ==> a@[j] == b@[j],
        decreases n - i,
    {
        if a.get_char(i) != b.get_char(i) {
            return false;
        }
        i = i + 1;
    }
    assert(a@ =~= b@);
    true
}

/// The name that the recorder gives a segment of `camera` starting at `t`:
/// `YYYY-MM-DD_HH-MM-SS-<camera>.mp4`.
pub open spec fn segment_name(t: Timestamp, camera: Camera) -> Seq<char> {
    folder_stamp(t) + "-"@ + camera.name() + ".mp4"@
}

/// The camera whose files end in `s`, after the time and its dash.
fn camera_of_suffix(s: &str) -> (r: Option<Camera>)
    ensures
        r matches Some(c) ==> s@ == c.name() + ".mp4"@,
        r is None ==> forall|c: Camera| s@ != #[trigger] c.name() + ".mp4"@,
{
    proof {
        reveal_strlit("front.mp4");
        reveal_strlit("left_repeater.mp4");
        reveal_strlit("right_repeater.mp4");
        reveal_strlit("back.mp4");
        reveal_strlit("front");
        reveal_strlit("left_repeater");
        reveal_strlit("right_repeater");
        reveal_strlit("back");
        reveal_strlit(".mp4");
        assert("front.mp4"@ =~= "front"@ + ".mp4"@);
        assert("left_repeater.mp4"@ =~= "left_repeater"@ + ".mp4"@);
        assert("right_repeater.mp4"@ =~= "right_repeater"@ + ".mp4"@);
        assert("back.mp4"@ =~= "back"@ + ".mp4"@);
    }
    if same_text(s, "front.mp4") {
        Some(Camera::Front)
    } else if same_text(s, "left_repeater.mp4") {
        Some(Camera::LeftRepeater)
    } else if same_text(s, "right_repeater.mp4") {
        Some(Camera::RightRepeater)
    } else if same_text(s, "back.mp4") {
        Some(Camera::Back)
    } else {
        assert forall|c: Camera| s@ != #[trigger] c.name() + ".mp4"@ by {
            match c {
                Camera::Front => {},
                Camera::LeftRepeater => {},
                Camera::RightRepeater => {},
                Camera::Back => {},
            }
        }
        None
    }
}

/// One recorded segment: the camera that took it, when it starts, and where
/// it lies.
#[derive(Debug)]
pub struct CameraFile {
    pub camera: Camera,
    pub start_time: Timestamp,
    pub path: String,
}

impl CameraFile {
    pub fn new(camera: Camera, start_time: Timestamp, path: String) -> (r: CameraFile)
        ensures
            r.camera == camera,
            r.start_time == start_time,
            r.path == path,
    {
        CameraFile { camera, start_time, path }
    }

    /// Reads the camera and start time of the segment at `path` from its
    /// file name.
    pub fn from_path(path: String) -> (r: Option<CameraFile>)
        ensures
            r matches Some(f) ==> {
                &&& f.path == path
                &&& f.start_time.wf()
                &&& f.start_time.milli == 0
                &&& file_name_spec(path@) == segment_name(f.start_time, f.camera)
            },
            r is None ==> forall|t: Timestamp, c: Camera|
                t.wf() && t.milli == 0 ==> file_name_spec(path@) != #[trigger] segment_name(t, c),
    {
        let name = file_name(path.as_str());
        let n = name.unicode_len();
        proof {
            reveal_strlit("-");
            assert forall|t: Timestamp, c: Camera| #[trigger] segment_name(t, c).len() >= 20
                && segment_name(t, c).subrange(0, 19) == folder_stamp(t) && segment_name(t, c)[19]
                == '-' && segment_name(t, c).subrange(20, segment_name(t, c).len() as int)
                == c.name() + ".mp4"@ by {
                crate::stamp::lemma_folder_stamp_len(t);
                assert(segment_name(t, c).subrange(0, 19) =~= folder_stamp(t));
                assert(segment_name(t, c).subrange(20, segment_name(t, c).len() as int) =~= c.name()
                    + ".mp4"@);
            }
        }
        if n < 20 || name.get_char(19) != '-' {
            return None;
        }
        let stamp = name.as_str().substring_char(0, 19);
        let rest = name.as_str().substring_char(20, n);
        match (parse_folder_stamp(stamp), camera_of_suffix(rest)) {
            (Some(t), Some(c)) => {
                proof {
                    reveal_strlit("-");
                    assert(name@ =~= stamp@ + seq!['-'] + rest@);
                    assert(segment_name(t, c) =~= folder_stamp(t) + seq!['-'] + (c.name()
                        + ".mp4"@));
                }
                Some(CameraFile { camera: c, start_time: t, path })
            },
            _ => None,
        }
    }
}

} // verus!
