use vstd::prelude::*;
use crate::camera::{Camera, CameraFile};
use crate::path::{file_name, file_name_spec, join, join_spec, parent, parent_spec};
use crate::playlist::{paths_of, playlist_of, playlist_text};
use crate::stamp::parse_folder_stamp;
use crate::stamp::{
    compact_stamp, decimal, decimal_text, epoch_seconds, epoch_seconds_of, folder_stamp,
    format_stamp, Timestamp, COMPACT_STAMP, FOLDER_STAMP,
};

verus! {

/// Start of the mosaic's filter graph: four inputs scaled into the quadrants
/// of a 1280x960 canvas, then the opening of the time overlay.
pub const FILTER_HEAD: &'static str = "nullsrc=size=1280x960 [base]; [0:v] setpts=PTS-STARTPTS, scale=640x480 [upperleft]; [1:v] setpts=PTS-STARTPTS, scale=640x480 [upperright]; [2:v] setpts=PTS-STARTPTS, scale=640x480 [lowerleft]; [3:v] setpts=PTS-STARTPTS, scale=640x480 [lowerright]; [base][upperleft] overlay=shortest=1 [tmp1]; [tmp1][upperright] overlay=shortest=1:x=640 [tmp2]; [tmp2][lowerleft] overlay=shortest=1:y=480 [tmp3]; [tmp3][lowerright] overlay=shortest=1:x=640:y=480, drawtext=text='%{pts\\:gmtime\\:";

/// End of the mosaic's filter graph: the overlay's format and placement.
pub const FILTER_TAIL: &'static str = "\\:%d-%m-%Y %T}': x=100 : y=800 : box=0: fontsize=32: fontcolor=GoldenRod";

/// Most inputs a mosaic has room for.
pub const MOSAIC_SLOTS: usize = 4;

/// Why an event or one of its jobs could not be had.
#[derive(Clone, Copy, Debug, PartialEq, Eq, Structural)]
pub enum ClipError {
    /// The event folder's name is not a timestamp.
    EventTimestamp,
    /// The event folder has no parent directory to hold the mosaic.
    NoParent,
    /// The camera has no segment in this event.
    NoSegments,
    /// More inputs than the mosaic has quadrants.
    TooManyInputs,
    /// The backend ended without success: its exit code, if it had one.
    BackendFailed(Option<i32>),
}

/// How a backend process ended.
#[derive(Clone, Copy, Debug, PartialEq, Eq, Structural)]
pub enum BackendExit {
    /// It exited with this code.
    Code(i32),
    /// It was stopped before it could exit (by a signal).
    Killed,
}

/// Joins one camera's segments, losslessly, into one file.
pub struct ConcatJob {
    /// Where the playlist is to be written.
    pub playlist_path: String,
    /// The playlist's contents.
    pub playlist: String,
    /// The file that the backend writes.
    pub output_path: String,
    /// The backend's arguments.
    pub args: Vec<String>,
}

/// Tiles up to four files into one 2x2 mosaic with a time overlay.
pub struct MosaicJob {
    /// The mosaic file that the backend writes.
    pub output_path: String,
    /// The backend's arguments.
    pub args: Vec<String>,
    /// The input files, which are removed once the mosaic is made.
    pub inputs: Vec<String>,
}

/// One recorded event: its folder, its time, and its segments in the order
/// in which they were captured.
pub struct SentryClip {
    pub folder: String,
    pub when: Timestamp,
    pub clips: Vec<CameraFile>,
}

pub open spec fn same_time(k: int) -> spec_fn(CameraFile) -> bool {
    |f: CameraFile| f.start_time.key() == k
}

pub open spec fn of_camera(c: Camera) -> spec_fn(CameraFile) -> bool {
    |f: CameraFile| f.camera == c
}

pub open spec fn all_times_wf(s: Seq<CameraFile>) -> bool {
    forall|i: int| 0 <= i < s.len() ==> (#[trigger] s[i]).start_time.wf()
}

/// Capture times never decrease along `s`.
pub open spec fn sorted_by_time(s: Seq<CameraFile>) -> bool {
    forall|i: int, j: int|
        0 <= i <= j < s.len() ==> (#[trigger] s[i]).start_time.key() <= (#[trigger] s[j]).start_time.key()
}

/// `r` is `s` in capture order, segments of equal time kept in the order of
/// `s`: sorted, and with the same segments at each time, in the same order.
pub open spec fn stable_sorted(r: Seq<CameraFile>, s: Seq<CameraFile>) -> bool {
    &&& sorted_by_time(r)
    &&& forall|k: int| #[trigger] r.filter(same_time(k)) == s.filter(same_time(k))
}

pub open spec fn views(v: Seq<String>) -> Seq<Seq<char>> {
    v.map_values(|a: String| a@)
}

/// `<event folder>/<event stamp>-<camera>-tmp.mp4`.
pub open spec fn concat_output_of(folder: Seq<char>, when: Timestamp, camera: Camera) -> Seq<char> {
    join_spec(folder, folder_stamp(when) + "-"@ + camera.name() + "-tmp.mp4"@)
}

/// `/tmp/tesla_playlist_tmp_<now>_<event stamp>_<camera>.txt`.
pub open spec fn playlist_path_of(now: Timestamp, when: Timestamp, camera: Camera) -> Seq<char> {
    "/tmp/tesla_playlist_tmp_"@ + compact_stamp(now) + "_"@ + compact_stamp(when) + "_"@
        + camera.name() + ".txt"@
}

pub open spec fn concat_args_of(playlist: Seq<char>, output: Seq<char>) -> Seq<Seq<char>> {
    seq!["-f"@, "concat"@, "-safe"@, "0"@, "-i"@, playlist, "-c"@, "copy"@, output]
}

/// `<parent of event folder>/<event stamp>-mosaic.mp4`, where the folder has
/// a parent.
pub open spec fn mosaic_file_of(folder: Seq<char>, when: Timestamp) -> Option<Seq<char>> {
    match parent_spec(folder) {
        Some(p) => Some(join_spec(p, folder_stamp(when) + "-mosaic.mp4"@)),
        None => None,
    }
}

pub open spec fn filter_of(start: Timestamp) -> Seq<char> {
    FILTER_HEAD@ + decimal(epoch_seconds_of(start)) + FILTER_TAIL@
}

/// `-i <path>` for each input, in order.
pub open spec fn input_args_of(paths: Seq<Seq<char>>) -> Seq<Seq<char>>
    decreases paths.len(),
{
    if paths.len() == 0 {
        Seq::empty()
    } else {
        input_args_of(paths.drop_last()) + seq!["-i"@, paths.last()]
    }
}

pub open spec fn mosaic_args_of(filter: Seq<char>, paths: Seq<Seq<char>>, output: Seq<char>) -> Seq<Seq<char>> {
    seq!["-filter_complex"@, filter] + input_args_of(paths) + seq!["-c:v"@, "libx264"@, output]
}

pub open spec fn input_paths(inputs: Seq<(String, Camera)>) -> Seq<Seq<char>> {
    inputs.map_values(|t: (String, Camera)| t.0@)
}

proof fn lemma_insert_keeps_groups(r: Seq<CameraFile>, p: int, x: CameraFile, k: int)
    requires
        0 <= p <= r.len(),
        forall|j: int| 0 <= j < p ==> (#[trigger] r[j]).start_time.key() < x.start_time.key(),
    ensures
        r.insert(p, x).filter(same_time(k)) == seq![x].filter(same_time(k)) + r.filter(same_time(k)),
{
    let pred = same_time(k);
    let a = r.subrange(0, p);
    let b = r.subrange(p, r.len() as int);
    assert(r =~= a + b);
    assert(r.insert(p, x) =~= a + (seq![x] + b));
    Seq::filter_distributes_over_add(a, b, pred);
    Seq::filter_distributes_over_add(a, seq![x] + b, pred);
    Seq::filter_distributes_over_add(seq![x], b, pred);
    if x.start_time.key() == k {
        assert(a.all(|y: CameraFile| !pred(y)));
        a.lemma_all_neg_filter_empty(pred);
        assert(a.filter(pred) =~= Seq::<CameraFile>::empty());
        assert(r.insert(p, x).filter(pred) =~= seq![x].filter(pred) + r.filter(pred));
    } else {
        seq![x].lemma_all_neg_filter_empty(pred);
        assert(seq![x].filter(pred) =~= Seq::<CameraFile>::empty());
        assert(r.insert(p, x).filter(pred) =~= seq![x].filter(pred) + r.filter(pred));
    }
}

/// `files` in capture order; segments of equal time keep their order.
fn sort_by_start_time(files: Vec<CameraFile>) -> (r: Vec<CameraFile>)
    requires
        all_times_wf(files@),
    ensures
        stable_sorted(r@, files@),
        r@.len() == files@.len(),
        all_times_wf(r@),
{
    let ghost s = files@;
    let mut rest = files;
    let mut r: Vec<CameraFile> = Vec::new();
    proof {
        assert forall|k: int| #[trigger] r@.filter(same_time(k)) == s.subrange(
            s.len() as int,
            s.len() as int,
        ).filter(same_time(k)) by {
            assert(r@.filter(same_time(k)) =~= Seq::<CameraFile>::empty());
            assert(s.subrange(s.len() as int, s.len() as int).filter(same_time(k)) =~= Seq::<
                CameraFile,
            >::empty());
        }
    }
    while rest.len() > 0
        invariant
            rest@ == s.subrange(0, rest@.len() as int),
            rest@.len() <= s.len(),
            r@.len() + rest@.len() == s.len(),
            all_times_wf(s),
            all_times_wf(r@),
            sorted_by_time(r@),
            forall|k: int| #[trigger]
                r@.filter(same_time(k)) == s.subrange(rest@.len() as int, s.len() as int).filter(
                    same_time(k),
                ),
        decreases rest@.len(),
    {
        let ghost n = rest@.len() as int;
        let x = rest.pop().unwrap();
        assert(x == s[n - 1]);
        let xk = x.start_time.sort_key();
        let mut p: usize = 0;
        while p < r.len() && r[p].start_time.sort_key() < xk
            invariant
                p <= r@.len(),
                all_times_wf(r@),
                x.start_time.wf(),
                xk == x.start_time.key(),
                forall|j: int| 0 <= j < p ==> (#[trigger] r@[j]).start_time.key() < xk,
            decreases r@.len() - p,
        {
            p = p + 1;
        }
        let ghost old_r = r@;
        r.insert(p, x);
        proof {
            assert(s.subrange(n - 1, s.len() as int) =~= seq![x] + s.subrange(n, s.len() as int));
            assert forall|k: int| #[trigger]
                r@.filter(same_time(k)) == s.subrange(n - 1, s.len() as int).filter(same_time(k)) by {
                lemma_insert_keeps_groups(old_r, p as int, x, k);
                Seq::filter_distributes_over_add(seq![x], s.subrange(n, s.len() as int), same_time(k));
            }
            assert forall|i: int, j: int| 0 <= i <= j < r@.len() implies
                (#[trigger] r@[i]).start_time.key() <= (#[trigger] r@[j]).start_time.key() by {
                if p < old_r.len() {
                    assert(old_r[p as int].start_time.key() >= xk);
                }
                if i < p && j > p {
                    assert(old_r[i].start_time.key() <= old_r[j - 1].start_time.key());
                } else if i > p {
                    assert(old_r[i - 1].start_time.key() <= old_r[j - 1].start_time.key());
                } else if i == p && j > p {
                    assert(old_r[p as int].start_time.key() <= old_r[j - 1].start_time.key());
                } else if j < p {
                    assert(old_r[i].start_time.key() <= old_r[j].start_time.key());
                } else if i < p && j == p {
                } 
            }
            assert(rest@ =~= s.subrange(0, n - 1));
        }
    }
    proof {
        assert(s.subrange(0, s.len() as int) =~= s);
    }
    r
}

/// The segments that the per-file parser could read, in listing order.
pub open spec fn readable(parsed: Seq<Option<CameraFile>>) -> Seq<CameraFile> {
    parsed.filter_map(|o: Option<CameraFile>| o)
}

pub open spec fn parsed_times_wf(parsed: Seq<Option<CameraFile>>) -> bool {
    forall|i: int| 0 <= i < parsed.len() ==> (#[trigger] parsed[i] matches Some(f) ==> f.start_time.wf())
}

/// The error that a backend's unsuccessful end is reported as.
pub open spec fn failure_of(exit: BackendExit) -> ClipError {
    match exit {
        BackendExit::Code(c) => ClipError::BackendFailed(Some(c)),
        BackendExit::Killed => ClipError::BackendFailed(None),
    }
}

/// Keeps the segments that could be read, dropping the files that could not.
fn keep_readable(parsed: Vec<Option<CameraFile>>) -> (r: Vec<CameraFile>)
    requires
        parsed_times_wf(parsed@),
    ensures
        r@ == readable(parsed@),
        all_times_wf(r@),
{
    let ghost s = parsed@;
    let mut rest = parsed;
    let mut r: Vec<CameraFile> = Vec::new();
    let ghost i: int = 0;
    assert(s.take(0).filter_map(|o: Option<CameraFile>| o) =~= Seq::<CameraFile>::empty());
    while rest.len() > 0
        invariant
            0 <= i <= s.len(),
            rest@ == s.subrange(i, s.len() as int),
            r@ == s.take(i).filter_map(|o: Option<CameraFile>| o),
            parsed_times_wf(s),
            all_times_wf(r@),
        decreases rest@.len(),
    {
        let o = rest.remove(0);
        assert(o == s[i]);
        proof {
            s.lemma_filter_map_take_succ(|o: Option<CameraFile>| o, i);
        }
        match o {
            Some(f) => {
                r.push(f);
            },
            None => {},
        }
        proof {
            i = i + 1;
            assert(rest@ =~= s.subrange(i, s.len() as int));
        }
    }
    assert(s.take(s.len() as int) =~= s);
    r
}

/// Adds `-i <path>` to `args` for each input, in order, and hands back the
/// inputs' paths.
fn push_inputs(args: &mut Vec<String>, inputs: &Vec<(String, Camera)>) -> (files: Vec<String>)
    ensures
        views(final(args)@) == views(old(args)@) + input_args_of(input_paths(inputs@)),
        views(files@) == input_paths(inputs@),
{
    let ghost start = views(args@);
    let ghost ps = input_paths(inputs@);
    let mut files: Vec<String> = Vec::new();
    let mut i: usize = 0;
    assert(views(args@) =~= start + input_args_of(ps.take(0)));
    while i < inputs.len()
        invariant
            i <= inputs@.len(),
            ps == input_paths(inputs@),
            views(args@) == start + input_args_of(ps.take(i as int)),
            views(files@) == ps.take(i as int),
        decreases inputs@.len() - i,
    {
        let ghost before = args@;
        let path = inputs[i].0.clone();
        args.push(String::from_str("-i"));
        args.push(path.clone());
        files.push(path);
        proof {
            assert(ps.take(i + 1).drop_last() =~= ps.take(i as int));
            assert(ps.take(i + 1).last() == path@);
            assert(views(args@) =~= views(before) + seq!["-i"@, path@]);
            assert(views(files@) =~= ps.take(i + 1));
            assert(views(args@) =~= start + input_args_of(ps.take(i + 1)));
        }
        i = i + 1;
    }
    assert(ps.take(inputs@.len() as int) =~= ps);
    files
}

/// Output names are deterministic: two events with the same folder and time
/// name the same joined file for a camera, and the same mosaic, whatever
/// their segments and whenever the jobs are made.
pub proof fn lemma_output_names_deterministic(a: SentryClip, b: SentryClip, camera: Camera)
    requires
        a.folder@ == b.folder@,
        a.when == b.when,
    ensures
        concat_output_of(a.folder@, a.when, camera) == concat_output_of(b.folder@, b.when, camera),
        mosaic_file_of(a.folder@, a.when) == mosaic_file_of(b.folder@, b.when),
{
}

proof fn lemma_join_keeps_end(dir: Seq<char>, name: Seq<char>, k: int)
    requires
        0 < k <= name.len(),
    ensures
        join_spec(dir, name).len() >= name.len(),
        join_spec(dir, name)[join_spec(dir, name).len() - k] == name[name.len() - k],
{
    let j = join_spec(dir, name);
    if !(name.len() > 0 && name[0] == '/') {
        if dir.len() == 0 || dir.last() == '/' {
            assert(j == dir + name);
        } else {
            assert(j == (dir + seq!['/']) + name);
        }
    }
}

/// The mosaic is never one of the joined per-camera files of an event with
/// the same time, so removing the mosaic's inputs once it is made cannot
/// remove the mosaic itself.
pub proof fn lemma_mosaic_is_not_a_joined_file(
    folder: Seq<char>,
    other_folder: Seq<char>,
    when: Timestamp,
    camera: Camera,
)
    requires
        mosaic_file_of(folder, when) is Some,
    ensures
        mosaic_file_of(folder, when).unwrap() != concat_output_of(other_folder, when, camera),
{
    reveal_strlit("-mosaic.mp4");
    reveal_strlit("-tmp.mp4");
    let m_name = folder_stamp(when) + "-mosaic.mp4"@;
    let c_name = folder_stamp(when) + "-"@ + camera.name() + "-tmp.mp4"@;
    let m = mosaic_file_of(folder, when).unwrap();
    let c = concat_output_of(other_folder, when, camera);
    lemma_join_keeps_end(parent_spec(folder).unwrap(), m_name, 5);
    lemma_join_keeps_end(other_folder, c_name, 5);
    assert(m_name[m_name.len() - 5] == 'c');
    assert(c_name[c_name.len() - 5] == 'p');
    assert(m[m.len() - 5] != c[c.len() - 5]);
}

impl ConcatJob {
    /// What the concatenation came to, given how the backend ended: the
    /// joined file where it exited with code 0.
    pub fn finish(self, exit: BackendExit) -> (r: Result<String, ClipError>)
        ensures
            exit == BackendExit::Code(0) ==> r == Ok::<String, ClipError>(self.output_path),
            exit != BackendExit::Code(0) ==> r == Err::<String, ClipError>(failure_of(exit)),
    {
        match exit {
            BackendExit::Code(0) => Ok(self.output_path),
            BackendExit::Code(c) => Err(ClipError::BackendFailed(Some(c))),
            BackendExit::Killed => Err(ClipError::BackendFailed(None)),
        }
    }
}

impl MosaicJob {
    /// What the composition came to, given how the backend ended: the input
    /// files, now to be removed, where it exited with code 0.
    pub fn finish(self, exit: BackendExit) -> (r: Result<Vec<String>, ClipError>)
        ensures
            exit == BackendExit::Code(0) ==> r == Ok::<Vec<String>, ClipError>(self.inputs),
            exit != BackendExit::Code(0) ==> r == Err::<Vec<String>, ClipError>(failure_of(exit)),
    {
        match exit {
            BackendExit::Code(0) => Ok(self.inputs),
            BackendExit::Code(c) => Err(ClipError::BackendFailed(Some(c))),
            BackendExit::Killed => Err(ClipError::BackendFailed(None)),
        }
    }
}

impl SentryClip {
    /// Well-formed: a valid event time, valid segment times, and segments in
    /// capture order.
    pub open spec fn wf(&self) -> bool {
        &&& self.when.wf()
        &&& all_times_wf(self.clips@)
        &&& sorted_by_time(self.clips@)
    }

    /// Assembles the event held in `folder` from what the per-file parser
    /// made of each of its files, in listing order. Files it could not read
    /// are left out; the folder's own name must be an event time.
    pub fn from_folder(folder: String, parsed: Vec<Option<CameraFile>>) -> (r: Result<SentryClip, ClipError>)
        requires
            parsed_times_wf(parsed@),
        ensures
            r is Err <==> forall|t: Timestamp|
                t.wf() && t.milli == 0 ==> folder_stamp(t) != file_name_spec(folder@),
            r matches Err(e) ==> e == ClipError::EventTimestamp,
            r matches Ok(c) ==> {
                &&& c.wf()
                &&& c.folder == folder
                &&& c.when.milli == 0
                &&& folder_stamp(c.when) == file_name_spec(folder@)
                &&& stable_sorted(c.clips@, readable(parsed@))
                &&& c.clips@.len() == readable(parsed@).len()
            },
    {
        let files = keep_readable(parsed);
        let clips = sort_by_start_time(files);
        let name = file_name(folder.as_str());
        match parse_folder_stamp(name.as_str()) {
            Some(when) => Ok(SentryClip { folder, when, clips }),
            None => Err(ClipError::EventTimestamp),
        }
    }

    /// Whether the event has no segment at all.
    pub fn is_empty(&self) -> (r: bool)
        ensures
            r == (self.clips@.len() == 0),
    {
        self.clips.len() == 0
    }

    /// The segments of `camera`, in the event's order.
    pub fn files_per_camera(&self, camera: &Camera) -> (r: Vec<&CameraFile>)
        ensures
            r@.map_values(|f: &CameraFile| *f) == self.clips@.filter(of_camera(*camera)),
    {
        let mut r: Vec<&CameraFile> = Vec::new();
        let mut i: usize = 0;
        assert(self.clips@.take(0).filter(of_camera(*camera)) =~= Seq::<CameraFile>::empty());
        while i < self.clips.len()
            invariant
                i <= self.clips@.len(),
                r@.map_values(|f: &CameraFile| *f) == self.clips@.take(i as int).filter(
                    of_camera(*camera),
                ),
            decreases self.clips@.len() - i,
        {
            let f = &self.clips[i];
            proof {
                assert(self.clips@.take(i + 1) =~= self.clips@.take(i as int).push(*f));
                self.clips@.take(i as int).lemma_filter_push(*f, of_camera(*camera));
            }
            if f.camera == *camera {
                r.push(f);
                assert(r@.map_values(|f: &CameraFile| *f) =~= self.clips@.take(i + 1).filter(
                    of_camera(*camera),
                ));
            }
            i = i + 1;
        }
        assert(self.clips@.take(self.clips@.len() as int) =~= self.clips@);
        r
    }

    /// Where the mosaic of this event goes: beside the event's folder.
    pub fn mosaic_file(&self) -> (r: Result<String, ClipError>)
        requires
            self.when.wf(),
        ensures
            r is Err <==> mosaic_file_of(self.folder@, self.when) is None,
            r matches Err(e) ==> e == ClipError::NoParent,
            r matches Ok(m) ==> mosaic_file_of(self.folder@, self.when) == Some(m@),
    {
        match parent(self.folder.as_str()) {
            None => Err(ClipError::NoParent),
            Some(dir) => {
                let mut name = format_stamp(&self.when, FOLDER_STAMP);
                name.append("-mosaic.mp4");
                Ok(join(dir.as_str(), name.as_str()))
            },
        }
    }

    /// The job that joins the segments of `camera` into one file; `now`
    /// makes the playlist's name unique to this run.
    pub fn concatenation_job(&self, camera: &Camera, now: &Timestamp) -> (r: Result<ConcatJob, ClipError>)
        requires
            self.when.wf(),
            now.wf(),
        ensures
            r is Err <==> self.clips@.filter(of_camera(*camera)).len() == 0,
            r matches Err(e) ==> e == ClipError::NoSegments,
            r matches Ok(j) ==> {
                &&& j.output_path@ == concat_output_of(self.folder@, self.when, *camera)
                &&& j.playlist_path@ == playlist_path_of(*now, self.when, *camera)
                &&& j.playlist@ == playlist_of(
                    self.clips@.filter(of_camera(*camera)).map_values(|f: CameraFile| f.path@),
                )
                &&& views(j.args@) == concat_args_of(j.playlist_path@, j.output_path@)
            },
    {
        let files = self.files_per_camera(camera);
        if files.len() == 0 {
            return Err(ClipError::NoSegments);
        }
        let name = camera.camera_file_name();
        let stamp = format_stamp(&self.when, FOLDER_STAMP);
        let mut output_name = stamp.clone();
        output_name.append("-");
        output_name.append(name);
        output_name.append("-tmp.mp4");
        let output_path = join(self.folder.as_str(), output_name.as_str());

        let mut playlist_path = String::from_str("/tmp/tesla_playlist_tmp_");
        playlist_path.append(format_stamp(now, COMPACT_STAMP).as_str());
        playlist_path.append("_");
        playlist_path.append(format_stamp(&self.when, COMPACT_STAMP).as_str());
        playlist_path.append("_");
        playlist_path.append(name);
        playlist_path.append(".txt");

        let playlist = playlist_text(&files);
        proof {
            assert(paths_of(files@) =~= self.clips@.filter(of_camera(*camera)).map_values(
                |f: CameraFile| f.path@,
            )) by {
                assert(files@.map_values(|f: &CameraFile| *f).len() == files@.len());
                assert forall|i: int| 0 <= i < files@.len() implies paths_of(files@)[i]
                    == self.clips@.filter(of_camera(*camera)).map_values(|f: CameraFile| f.path@)[i] by {
                    assert(files@.map_values(|f: &CameraFile| *f)[i] == *files@[i]);
                }
            }
        }

        let mut args: Vec<String> = Vec::new();
        args.push(String::from_str("-f"));
        args.push(String::from_str("concat"));
        args.push(String::from_str("-safe"));
        args.push(String::from_str("0"));
        args.push(String::from_str("-i"));
        args.push(playlist_path.clone());
        args.push(String::from_str("-c"));
        args.push(String::from_str("copy"));
        args.push(output_path.clone());
        assert(views(args@) =~= concat_args_of(playlist_path@, output_path@));
        Ok(ConcatJob { playlist_path, playlist, output_path, args })
    }

    /// The job that tiles `inputs` (file and camera), in their order, into
    /// the quadrants upper left, upper right, lower left and lower right of
    /// the mosaic, with the event's first capture time burned in.
    pub fn mosaic_job(&self, inputs: &Vec<(String, Camera)>) -> (r: Result<MosaicJob, ClipError>)
        requires
            self.when.wf(),
            all_times_wf(self.clips@),
            self.clips@.len() > 0,
        ensures
            inputs@.len() > MOSAIC_SLOTS ==> r == Err::<MosaicJob, ClipError>(ClipError::TooManyInputs),
            inputs@.len() <= MOSAIC_SLOTS && mosaic_file_of(self.folder@, self.when) is None ==> r
                == Err::<MosaicJob, ClipError>(ClipError::NoParent),
            inputs@.len() <= MOSAIC_SLOTS && mosaic_file_of(self.folder@, self.when) is Some ==> (r matches Ok(j) && {
                let m = mosaic_file_of(self.folder@, self.when).unwrap();
                &&& j.output_path@ == m
                &&& views(j.args@) == mosaic_args_of(
                    filter_of(self.clips@[0].start_time),
                    input_paths(inputs@),
                    m,
                )
                &&& views(j.inputs@) == input_paths(inputs@)
            }),
    {
        if inputs.len() > MOSAIC_SLOTS {
            return Err(ClipError::TooManyInputs);
        }
        let output_path = match self.mosaic_file() {
            Ok(m) => m,
            Err(e) => {
                return Err(e);
            },
        };
        let mut filter = String::from_str(FILTER_HEAD);
        filter.append(decimal_text(epoch_seconds(&self.clips[0].start_time)).as_str());
        filter.append(FILTER_TAIL);

        let mut args: Vec<String> = Vec::new();
        args.push(String::from_str("-filter_complex"));
        args.push(filter);
        assert(views(args@) =~= seq!["-filter_complex"@, filter_of(self.clips@[0].start_time)]);
        let files = push_inputs(&mut args, inputs);
        args.push(String::from_str("-c:v"));
        args.push(String::from_str("libx264"));
        args.push(output_path.clone());
        proof {
            assert(input_paths(inputs@).take(inputs@.len() as int) =~= input_paths(inputs@));
            assert(views(args@) =~= mosaic_args_of(
                filter_of(self.clips@[0].start_time),
                input_paths(inputs@),
                output_path@,
            ));
        }
        Ok(MosaicJob { output_path, args, inputs: files })
    }
}

} // verus!
