//! Writing of FLAC files, one after the other.

use vstd::prelude::*;

use crate::text::{
    chars_of, decimal, digit, digits_value, join, join3, lemma_decimal, opt_str, same, to_decimal,
};

verus! {

// ---------------------------------------------------------------------------
// Paths
// ---------------------------------------------------------------------------

/// A path without the separators and the dots that stand for nothing at its end.
pub open spec fn stripped(path: Seq<char>) -> Seq<char>
    decreases path.len(),
{
    if path.len() > 1 && path.last() == '/' {
        stripped(path.drop_last())
    } else if path.len() > 1 && path.last() == '.' && path[path.len() - 2] == '/' {
        stripped(path.drop_last())
    } else {
        path
    }
}

/// Where the last component of a path starts.
pub open spec fn name_start(path: Seq<char>) -> int
    decreases path.len(),
{
    if path.len() == 0 {
        0
    } else if path.last() == '/' {
        path.len() as int
    } else {
        name_start(path.drop_last())
    }
}

/// The file name at the end of a path; there is none in an empty path, in the root, or where the
/// path ends in a directory that stands for itself or for its parent.
pub open spec fn file_name(path: Seq<char>) -> Option<Seq<char>> {
    let t = stripped(path);
    let name = t.skip(name_start(t));
    if name.len() == 0 || name == seq!['.'] || name == seq!['.', '.'] {
        None
    } else {
        Some(name)
    }
}

/// What stands in front of the file name of a path.
pub open spec fn directory(path: Seq<char>) -> Seq<char> {
    let t = stripped(path);
    match file_name(path) {
        Some(_) => stripped(t.take(name_start(t))),
        None => path,
    }
}

/// Where the last dot of a name stands.
pub open spec fn last_dot(name: Seq<char>) -> Option<int>
    decreases name.len(),
{
    if name.len() == 0 {
        None
    } else if name.last() == '.' {
        Some(name.len() - 1)
    } else {
        last_dot(name.drop_last())
    }
}

/// A file name without its extension. A name that starts with its only dot has none.
pub open spec fn stem(name: Seq<char>) -> Seq<char> {
    match last_dot(name) {
        Some(i) if i > 0 => name.take(i),
        _ => name,
    }
}

/// The extension of a file name with the dot in front of it, if it has one.
pub open spec fn dotted_extension(name: Seq<char>) -> Seq<char> {
    match last_dot(name) {
        Some(i) if i > 0 => name.skip(i),
        _ => Seq::empty(),
    }
}

/// A number with at least three digits.
pub open spec fn three_digits(n: nat) -> Seq<char> {
    if n < 10 {
        seq!['0', '0'] + decimal(n)
    } else if n < 100 {
        seq!['0'] + decimal(n)
    } else {
        decimal(n)
    }
}

/// A file in a directory.
pub open spec fn within(dir: Seq<char>, name: Seq<char>) -> Seq<char> {
    if dir.len() == 0 || dir.last() == '/' {
        dir + name
    } else {
        dir + seq!['/'] + name
    }
}

/// The path of a numbered file: the number stands behind the stem of the file name.
pub open spec fn split_path(base: Seq<char>, index: nat) -> Seq<char> {
    let name = match file_name(base) {
        Some(n) => n,
        None => Seq::empty(),
    };
    within(
        directory(base),
        stem(name) + (seq!['-'] + three_digits(index) + dotted_extension(name)),
    )
}

/// The length of the first `end` characters without what stands for nothing at their end.
fn strip_end(cs: &Vec<char>, end: usize) -> (res: usize)
    requires
        end <= cs@.len(),
    ensures
        res <= end,
        stripped(cs@.take(end as int)) == cs@.take(res as int),
{
    let mut e: usize = end;
    while e > 1 && (cs[e - 1] == '/' || (cs[e - 1] == '.' && cs[e - 2] == '/'))
        invariant
            e <= end <= cs@.len(),
            stripped(cs@.take(end as int)) == stripped(cs@.take(e as int)),
        decreases e,
    {
        assert(cs@.take(e as int).drop_last() =~= cs@.take(e - 1));
        e = e - 1;
    }
    e
}

/// Where the last component of the first `end` characters starts.
fn find_name(cs: &Vec<char>, end: usize) -> (res: usize)
    requires
        end <= cs@.len(),
    ensures
        res <= end,
        res == name_start(cs@.take(end as int)),
{
    let mut a: usize = end;
    while a > 0 && cs[a - 1] != '/'
        invariant
            a <= end <= cs@.len(),
            name_start(cs@.take(end as int)) == name_start(cs@.take(a as int)),
        decreases a,
    {
        assert(cs@.take(a as int).drop_last() =~= cs@.take(a - 1));
        a = a - 1;
    }
    a
}

/// Where the last dot of a name stands.
fn find_dot(cs: &Vec<char>) -> (res: Option<usize>)
    ensures
        match (res, last_dot(cs@)) {
            (Some(g), Some(w)) => g == w && g < cs@.len(),
            (None, None) => true,
            _ => false,
        },
{
    let mut i: usize = cs.len();
    assert(cs@.take(i as int) =~= cs@);
    while i > 0
        invariant
            i <= cs@.len(),
            last_dot(cs@) == last_dot(cs@.take(i as int)),
        decreases i,
    {
        if cs[i - 1] == '.' {
            return Some(i - 1);
        }
        assert(cs@.take(i as int).drop_last() =~= cs@.take(i - 1));
        i = i - 1;
    }
    None
}

/// Whether a component stands for a directory itself or for its parent, or for nothing.
fn is_dots(name: &str) -> (res: bool)
    ensures
        res == (name@.len() == 0 || name@ == seq!['.'] || name@ == seq!['.', '.']),
{
    proof {
        reveal_strlit(".");
        reveal_strlit("..");
        assert("."@ =~= seq!['.']);
        assert(".."@ =~= seq!['.', '.']);
    }
    name.unicode_len() == 0 || same(name, ".") || same(name, "..")
}

/// The directory of a path and its file name, if it has one.
fn split_off_name<'a>(base: &'a str) -> (res: (&'a str, Option<&'a str>))
    ensures
        res.0@ == directory(base@),
        opt_str(res.1) == file_name(base@),
{
    let cs: Vec<char> = chars_of(base);
    let len: usize = cs.len();
    assert(base@.take(len as int) =~= base@);
    let end: usize = strip_end(&cs, len);
    let start: usize = find_name(&cs, end);
    let ghost t = base@.take(end as int);
    let name: &'a str = base.substring_char(start, end);
    assert(name@ =~= t.skip(start as int));
    if is_dots(name) {
        return (base, None);
    }
    let dir_end: usize = strip_end(&cs, start);
    let dir: &'a str = base.substring_char(0, dir_end);
    assert(dir@ =~= base@.take(dir_end as int));
    assert(t.take(start as int) =~= base@.take(start as int));
    (dir, Some(name))
}

/// The stem of a file name and its extension with the dot in front of it.
fn split_off_extension<'a>(name: &'a str) -> (res: (&'a str, &'a str))
    ensures
        res.0@ == stem(name@),
        res.1@ == dotted_extension(name@),
{
    let cs: Vec<char> = chars_of(name);
    let len: usize = cs.len();
    let at: usize = match find_dot(&cs) {
        Some(i) => if i > 0 {
            i
        } else {
            len
        },
        None => len,
    };
    let body: &'a str = name.substring_char(0, at);
    let ext: &'a str = name.substring_char(at, len);
    assert(body@ =~= stem(name@));
    assert(ext@ =~= dotted_extension(name@));
    (body, ext)
}

/// A file in a directory.
fn file_within(dir: &str, name: &str) -> (res: String)
    ensures
        res@ == within(dir@, name@),
{
    let cs: Vec<char> = chars_of(dir);
    let len: usize = cs.len();
    if len == 0 || cs[len - 1] == '/' {
        join(dir, name)
    } else {
        proof {
            reveal_strlit("/");
            assert("/"@ =~= seq!['/']);
        }
        join3(dir, "/", name)
    }
}

/// Writes a number with at least three digits.
fn to_three_digits(n: u64) -> (res: String)
    ensures
        res@ == three_digits(n as nat),
{
    proof {
        reveal_strlit("00");
        reveal_strlit("0");
        assert("00"@ =~= seq!['0', '0']);
        assert("0"@ =~= seq!['0']);
    }
    let digits: String = to_decimal(n);
    if n < 10 {
        join("00", digits.as_str())
    } else if n < 100 {
        join("0", digits.as_str())
    } else {
        digits
    }
}

/// The path of the `index`-th file: the number, with at least three digits, stands in front of
/// the extension of the file name. The path is in Unix notation.
pub fn split_flac_path(base: &str, index: u64) -> (res: String)
    ensures
        res@ == split_path(base@, index as nat),
{
    let parts: (&str, Option<&str>) = split_off_name(base);
    let halves: (&str, &str) = match parts.1 {
        Some(name) => split_off_extension(name),
        None => {
            proof {
                reveal_strlit("");
                assert(""@ =~= Seq::<char>::empty());
                assert(last_dot(Seq::<char>::empty()) is None);
            }
            ("", "")
        },
    };
    let mut name: String = halves.0.to_owned();
    proof {
        reveal_strlit("-");
        assert("-"@ =~= seq!['-']);
    }
    name.append("-");
    name.append(to_three_digits(index).as_str());
    name.append(halves.1);
    assert(name@ =~= halves.0@ + (seq!['-'] + three_digits(index as nat) + halves.1@));
    file_within(parts.0, name.as_str())
}

/// A number with leading zeros stands for itself.
proof fn lemma_three_digits(n: nat)
    ensures
        digits_value(three_digits(n)) == n,
{
    lemma_decimal(n);
    reveal_with_fuel(decimal, 3);
    reveal_with_fuel(digits_value, 4);
    if n < 10 {
        let s = three_digits(n);
        assert(s =~= seq!['0', '0', digit(n)]);
        assert(s.drop_last() =~= seq!['0', '0']);
        assert(s.drop_last().drop_last() =~= seq!['0']);
        assert(s.drop_last().drop_last().drop_last() =~= Seq::<char>::empty());
    } else if n < 100 {
        let s = three_digits(n);
        assert(s =~= seq!['0', digit(n / 10), digit(n % 10)]);
        assert(s.drop_last() =~= seq!['0', digit(n / 10)]);
        assert(s.drop_last().drop_last() =~= seq!['0']);
        assert(s.drop_last().drop_last().drop_last() =~= Seq::<char>::empty());
    }
}

/// Only the number of a path depends on the number.
proof fn lemma_path_parts(dir: Seq<char>, body: Seq<char>, number: Seq<char>, ext: Seq<char>)
    ensures
        within(dir, body + (seq!['-'] + number + ext)) == (within(dir, body) + seq!['-']) + number
            + ext,
{
    let name = body + (seq!['-'] + number + ext);
    assert(within(dir, name) =~= (within(dir, body) + seq!['-']) + number + ext);
}

/// What stands between the same texts is the same where the whole is.
proof fn lemma_same_middle(front: Seq<char>, a: Seq<char>, b: Seq<char>, back: Seq<char>)
    requires
        front + a + back == front + b + back,
    ensures
        a == b,
{
    let whole = front + a + back;
    assert((front + b + back).len() == whole.len());
    assert(a =~= whole.subrange(front.len() as int, (front.len() + a.len()) as int));
    assert(b =~= whole.subrange(front.len() as int, (front.len() + b.len()) as int));
}

/// Files with different numbers have different paths, so that none is written twice.
pub proof fn lemma_paths_differ(base: Seq<char>, i: nat, j: nat)
    requires
        i != j,
    ensures
        split_path(base, i) != split_path(base, j),
{
    let name = match file_name(base) {
        Some(n) => n,
        None => Seq::empty(),
    };
    let dir = directory(base);
    let front = within(dir, stem(name)) + seq!['-'];
    let ext = dotted_extension(name);
    lemma_path_parts(dir, stem(name), three_digits(i), ext);
    lemma_path_parts(dir, stem(name), three_digits(j), ext);
    lemma_three_digits(i);
    lemma_three_digits(j);
    if split_path(base, i) == split_path(base, j) {
        lemma_same_middle(front, three_digits(i), three_digits(j), ext);
    }
}

// ---------------------------------------------------------------------------
// Rotation
// ---------------------------------------------------------------------------

/// Where a writer of files stands.
pub struct Rotation {
    /// The path it was given.
    pub base: Seq<char>,
    /// Sample rate (Hz).
    pub sample_rate: nat,
    /// Number of channels.
    pub channels: nat,
    /// Frames after which a file is closed; 0 means never.
    pub per_file: nat,
    /// Whether a file is open.
    pub open: bool,
    /// Frames in the current file.
    pub frames: nat,
    /// Number of the current file.
    pub index: nat,
}

impl Rotation {
    /// The path of the current file.
    pub open spec fn path(self) -> Seq<char> {
        if self.per_file > 0 {
            split_path(self.base, self.index)
        } else {
            self.base
        }
    }

    /// Frames in the current file after a chunk of `len` samples.
    pub open spec fn grown(self, len: nat) -> nat {
        self.frames + len / self.channels
    }

    /// Whether a chunk of `len` samples fills the current file.
    pub open spec fn filled(self, len: nat) -> bool {
        self.per_file > 0 && self.grown(len) >= self.per_file
    }

    /// After a chunk of `len` samples was written: a file that is full is closed.
    pub open spec fn wrote(self, len: nat) -> Rotation {
        Rotation { frames: self.grown(len), open: !self.filled(len), ..self }
    }

    /// After a full file was closed without an error.
    pub open spec fn rotated(self) -> Rotation {
        Rotation { frames: 0, index: self.index + 1, ..self }
    }
}

/// Writes chunks to FLAC files and moves on to the next file where a file is full.
#[derive(Debug)]
pub struct FlacEncoder {
    base: String,
    sample_rate: u32,
    channels: u16,
    frames_per_file: u64,
    writer: bool,
    frames_in_current: u64,
    file_index: u64,
}

impl View for FlacEncoder {
    type V = Rotation;

    closed spec fn view(&self) -> Rotation {
        Rotation {
            base: self.base@,
            sample_rate: self.sample_rate as nat,
            channels: self.channels as nat,
            per_file: self.frames_per_file as nat,
            open: self.writer,
            frames: self.frames_in_current as nat,
            index: self.file_index as nat,
        }
    }
}

impl FlacEncoder {
    /// A writer before its first file. Without `split_seconds`, or with 0, there is one file.
    pub fn create(
        path: &str,
        sample_rate: u32,
        channels: u16,
        split_seconds: Option<u32>,
    ) -> (res: FlacEncoder)
        ensures
            res@ == (Rotation {
                base: path@,
                sample_rate: sample_rate as nat,
                channels: channels as nat,
                per_file: match split_seconds {
                    Some(s) => (s * sample_rate) as nat,
                    None => 0,
                },
                open: false,
                frames: 0,
                index: 1,
            }),
    {
        let seconds: u32 = match split_seconds {
            Some(s) => s,
            None => 0,
        };
        assert(0 <= seconds * sample_rate <= 0xffff_ffff * 0xffff_ffff) by (nonlinear_arith)
            requires
                0 <= seconds <= 0xffff_ffff,
                0 <= sample_rate <= 0xffff_ffff,
        ;
        assert(0 * sample_rate == 0) by (nonlinear_arith);
        FlacEncoder {
            base: path.to_owned(),
            sample_rate,
            channels,
            frames_per_file: seconds as u64 * sample_rate as u64,
            writer: false,
            frames_in_current: 0,
            file_index: 1,
        }
    }

    /// The path of the file that has to be opened before a chunk is written, if none is open.
    pub fn next_path(&self) -> (res: Option<String>)
        ensures
            match res {
                Some(path) => !self@.open && path@ == self@.path(),
                None => self@.open,
            },
    {
        if self.writer {
            None
        } else if self.frames_per_file > 0 {
            Some(split_flac_path(self.base.as_str(), self.file_index))
        } else {
            Some(self.base.as_str().to_owned())
        }
    }

    /// The sample rate and the channels of the files.
    pub fn format(&self) -> (res: (u32, u16))
        ensures
            res.0 == self@.sample_rate,
            res.1 == self@.channels,
    {
        (self.sample_rate, self.channels)
    }

    /// The file was opened.
    pub fn opened(&mut self)
        ensures
            final(self)@ == (Rotation { open: true, ..old(self)@ }),
    {
        self.writer = true;
    }

    /// Whether a chunk of `len` samples can be counted: a file with channels is open, and the
    /// numbers of frames and files fit a machine word.
    pub fn accepts(&self, len: usize) -> (res: bool)
        ensures
            res == (self@.open && self@.channels > 0 && self@.grown(len as nat) <= u64::MAX
                && self@.index < u64::MAX),
    {
        if !self.writer || self.channels == 0 {
            return false;
        }
        let frames: u64 = len as u64 / self.channels as u64;
        self.frames_in_current <= u64::MAX - frames && self.file_index < u64::MAX
    }

    /// A chunk of `len` samples was written. Tells whether the file is full: it is given up and
    /// has to be closed, and [`FlacEncoder::rotated`] has to follow if that went well.
    pub fn write_chunk(&mut self, len: usize) -> (res: bool)
        requires
            old(self)@.open,
            old(self)@.channels > 0,
            old(self)@.grown(len as nat) <= u64::MAX,
        ensures
            final(self)@ == old(self)@.wrote(len as nat),
            res == old(self)@.filled(len as nat),
    {
        let frames: u64 = len as u64 / self.channels as u64;
        self.frames_in_current = self.frames_in_current + frames;
        if self.frames_per_file > 0 && self.frames_in_current >= self.frames_per_file {
            self.writer = false;
            return true;
        }
        false
    }

    /// A full file was closed without an error: the next chunk starts the next file.
    pub fn rotated(&mut self)
        requires
            old(self)@.index < u64::MAX,
        ensures
            final(self)@ == old(self)@.rotated(),
    {
        self.file_index = self.file_index + 1;
        self.frames_in_current = 0;
    }

    /// Gives up the file that is open. Tells whether there is one, which has to be closed. A
    /// second call does nothing.
    pub fn finalize(&mut self) -> (res: bool)
        ensures
            final(self)@ == (Rotation { open: false, ..old(self)@ }),
            res == old(self)@.open,
    {
        let open: bool = self.writer;
        self.writer = false;
        open
    }
}

/// Nothing is lost and no chunk is split: a file is closed once it has the frames that were asked
/// for, and it has less than one chunk more; until then it stays open.
pub proof fn lemma_files_are_long_enough(r: Rotation, len: nat)
    requires
        r.per_file > 0,
        r.frames < r.per_file,
        r.channels > 0,
        r.open,
    ensures
        r.wrote(len).frames == r.frames + len / r.channels,
        !r.wrote(len).open ==> r.per_file <= r.wrote(len).frames < r.per_file + len / r.channels,
        r.wrote(len).open ==> r.wrote(len).frames < r.per_file,
        r.wrote(len).rotated().frames < r.per_file,
        r.wrote(len).rotated().index == r.index + 1,
        r.wrote(len).rotated().path() != r.path(),
{
    lemma_paths_differ(r.base, r.index, r.index + 1);
}

/// The frames in a run of chunks.
pub open spec fn frames_in(chunks: Seq<nat>, channels: nat) -> nat
    decreases chunks.len(),
{
    if chunks.len() == 0 {
        0
    } else {
        frames_in(chunks.drop_last(), channels) + chunks.last() / channels
    }
}

/// The sum of the lengths of files.
pub open spec fn total(files: Seq<nat>) -> nat
    decreases files.len(),
{
    if files.len() == 0 {
        0
    } else {
        total(files.drop_last()) + files.last()
    }
}

impl Rotation {
    /// After a run of chunks, each written to a file that is opened where none is open, and every
    /// full file closed without an error. With it the frames of the files that were closed.
    pub open spec fn after_run(self, chunks: Seq<nat>) -> (Rotation, Seq<nat>)
        decreases chunks.len(),
    {
        if chunks.len() == 0 {
            (self, Seq::empty())
        } else {
            let (before, files) = self.after_run(chunks.drop_last());
            let wrote = Rotation { open: true, ..before }.wrote(chunks.last());
            if wrote.open {
                (wrote, files)
            } else {
                (wrote.rotated(), files.push(wrote.frames))
            }
        }
    }
}

/// Over a run of chunks nothing is lost: the frames of all files together are those that were
/// written. Every file that was closed has the frames that were asked for and less than one chunk
/// more, and files are counted up one by one.
pub proof fn lemma_run_loses_nothing(r: Rotation, chunks: Seq<nat>, longest: nat)
    requires
        r.channels > 0,
        r.per_file > 0 ==> r.frames < r.per_file,
        forall|i: int|
            0 <= i < chunks.len() ==> (#[trigger] chunks[i]) / r.channels <= longest,
    ensures
        ({
            let (after, files) = r.after_run(chunks);
            &&& total(files) + after.frames == r.frames + frames_in(chunks, r.channels)
            &&& after.index == r.index + files.len()
            &&& after.channels == r.channels && after.per_file == r.per_file && after.base == r.base
            &&& r.per_file == 0 ==> files.len() == 0
            &&& r.per_file > 0 ==> after.frames < r.per_file
            &&& forall|i: int|
                0 <= i < files.len() ==> r.per_file <= #[trigger] files[i] < r.per_file + longest
        }),
    decreases chunks.len(),
{
    if chunks.len() > 0 {
        assert forall|i: int| 0 <= i < chunks.drop_last().len() implies (
        #[trigger] chunks.drop_last()[i]) / r.channels <= longest by {
            assert(chunks[i] / r.channels <= longest);
        }
        lemma_run_loses_nothing(r, chunks.drop_last(), longest);
        assert(chunks[chunks.len() - 1] / r.channels <= longest);
        let (before, files) = r.after_run(chunks.drop_last());
        let wrote = Rotation { open: true, ..before }.wrote(chunks.last());
        if !wrote.open {
            assert(files.push(wrote.frames).drop_last() =~= files);
        }
    }
}

/// A writer of one file never closes it by itself.
pub proof fn lemma_single_file_stays_open(r: Rotation, len: nat)
    requires
        r.per_file == 0,
        r.open,
    ensures
        r.wrote(len).open,
        r.wrote(len).path() == r.base,
{
}

// ---------------------------------------------------------------------------
// Laws of numbered paths
// ---------------------------------------------------------------------------

/// A number is written with three digits, or with as many as it has where those are more, and
/// stands for itself.
pub proof fn lemma_three_digits_of_a_number(n: nat)
    ensures
        n < 1000 ==> three_digits(n).len() == 3,
        n >= 100 ==> three_digits(n) == decimal(n),
        digits_value(three_digits(n)) == n,
        forall|i: int|
            0 <= i < three_digits(n).len() ==> '0' <= #[trigger] three_digits(n)[i] <= '9',
{
    lemma_three_digits(n);
    lemma_decimal(n);
    reveal_with_fuel(decimal, 4);
}

proof fn lemma_name_start(dir: Seq<char>, name: Seq<char>)
    requires
        dir.len() == 0 || dir.last() == '/',
        forall|i: int| 0 <= i < name.len() ==> #[trigger] name[i] != '/',
    ensures
        name_start(dir + name) == dir.len(),
    decreases name.len(),
{
    let whole = dir + name;
    if name.len() > 0 {
        assert(whole.last() == name[name.len() - 1]);
        assert(whole.drop_last() =~= dir + name.drop_last());
        assert forall|i: int| 0 <= i < name.drop_last().len() implies #[trigger] name.drop_last()[i]
            != '/' by {
            assert(name[i] != '/');
        }
        lemma_name_start(dir, name.drop_last());
    } else {
        assert(whole =~= dir);
    }
}

proof fn lemma_last_dot(body: Seq<char>, rest: Seq<char>)
    requires
        forall|i: int| 0 <= i < rest.len() ==> #[trigger] rest[i] != '.',
    ensures
        last_dot(body + seq!['.'] + rest) == Some(body.len() as int),
    decreases rest.len(),
{
    let whole = body + seq!['.'] + rest;
    if rest.len() > 0 {
        assert(whole.last() == rest[rest.len() - 1]);
        assert(whole.drop_last() =~= body + seq!['.'] + rest.drop_last());
        assert forall|i: int| 0 <= i < rest.drop_last().len() implies #[trigger] rest.drop_last()[i]
            != '.' by {
            assert(rest[i] != '.');
        }
        lemma_last_dot(body, rest.drop_last());
    } else {
        assert(whole =~= body.push('.'));
    }
}

proof fn lemma_no_dot(name: Seq<char>)
    requires
        forall|i: int| 0 < i < name.len() ==> #[trigger] name[i] != '.',
    ensures
        match last_dot(name) {
            Some(i) => i == 0,
            None => true,
        },
    decreases name.len(),
{
    if name.len() > 1 {
        assert(name[name.len() - 1] != '.');
        assert forall|i: int| 0 < i < name.drop_last().len() implies #[trigger] name.drop_last()[i]
            != '.' by {
            assert(name[i] != '.');
        }
        lemma_no_dot(name.drop_last());
    } else if name.len() == 1 {
        assert(last_dot(name.drop_last()) is None);
    }
}

/// Whether a text is a directory in front of a file name: nothing, the root, or a path without
/// superfluous ends and a separator.
pub open spec fn is_front(dir: Seq<char>) -> bool {
    ||| dir.len() == 0
    ||| dir == seq!['/']
    ||| {
        &&& dir.len() > 1
        &&& dir.last() == '/'
        &&& dir[dir.len() - 2] != '/'
        &&& !(dir.len() > 2 && dir[dir.len() - 2] == '.' && dir[dir.len() - 3] == '/')
    }
}

proof fn lemma_front(dir: Seq<char>, name: Seq<char>, other: Seq<char>)
    requires
        is_front(dir),
        name.len() > 0,
        name != seq!['.'],
        name != seq!['.', '.'],
        forall|i: int| 0 <= i < name.len() ==> #[trigger] name[i] != '/',
    ensures
        file_name(dir + name) == Some(name),
        within(directory(dir + name), other) == dir + other,
{
    let whole = dir + name;
    assert(whole.last() == name[name.len() - 1]);
    assert(stripped(whole) == whole) by {
        if whole.last() == '.' && whole.len() > 1 && whole[whole.len() - 2] == '/' {
            if name.len() > 1 {
                assert(whole[whole.len() - 2] == name[name.len() - 2]);
            } else {
                assert(name =~= seq!['.']);
            }
        }
    }
    lemma_name_start(dir, name);
    assert(whole.skip(dir.len() as int) =~= name);
    assert(whole.take(dir.len() as int) =~= dir);
    if dir.len() > 1 {
        let less = dir.drop_last();
        reveal_with_fuel(stripped, 2);
        assert(stripped(dir) == stripped(less));
        assert(less.last() == dir[dir.len() - 2]);
        if less.len() > 1 {
            assert(less[less.len() - 2] == dir[dir.len() - 3]);
        }
        assert(stripped(less) == less);
        assert(less + seq!['/'] + other =~= dir + other);
    } else if dir.len() == 1 {
        assert(stripped(dir) == dir);
    }
}

/// The number of a file stands, behind a hyphen, between the body of its name and the last dot;
/// directory and extension stay as they are.
pub proof fn lemma_number_before_the_extension(
    dir: Seq<char>,
    body: Seq<char>,
    ext: Seq<char>,
    index: nat,
)
    requires
        is_front(dir),
        body.len() > 0,
        forall|i: int| 0 <= i < body.len() ==> #[trigger] body[i] != '/',
        forall|i: int| 0 <= i < ext.len() ==> #[trigger] ext[i] != '/' && ext[i] != '.',
        body + seq!['.'] + ext != seq!['.', '.'],
    ensures
        split_path(dir + (body + seq!['.'] + ext), index) == dir + (body + (seq!['-']
            + three_digits(index) + (seq!['.'] + ext))),
{
    let name = body + seq!['.'] + ext;
    assert forall|i: int| 0 <= i < name.len() implies #[trigger] name[i] != '/' by {
        if i < body.len() {
            assert(name[i] == body[i]);
        } else if i > body.len() {
            assert(name[i] == ext[i - body.len() - 1]);
        }
    }
    assert(name.len() > 1);
    lemma_last_dot(body, ext);
    assert(stem(name) =~= body);
    assert(dotted_extension(name) =~= seq!['.'] + ext);
    lemma_front(
        dir,
        name,
        body + (seq!['-'] + three_digits(index) + (seq!['.'] + ext)),
    );
}

/// A file name without an extension gets its number at its end; one that only starts with a dot
/// has none.
pub proof fn lemma_number_at_the_end(dir: Seq<char>, name: Seq<char>, index: nat)
    requires
        is_front(dir),
        name.len() > 0,
        name != seq!['.'],
        forall|i: int| 0 <= i < name.len() ==> #[trigger] name[i] != '/',
        forall|i: int| 0 < i < name.len() ==> #[trigger] name[i] != '.',
    ensures
        split_path(dir + name, index) == dir + (name + (seq!['-'] + three_digits(index))),
{
    lemma_no_dot(name);
    if name == seq!['.', '.'] {
        assert(name[1] == '.');
    }
    assert(seq!['-'] + three_digits(index) + Seq::<char>::empty() =~= seq!['-'] + three_digits(
        index,
    ));
    lemma_front(dir, name, name + (seq!['-'] + three_digits(index)));
}

/// A separator at the end of a path with a file name makes no difference.
pub proof fn lemma_separator_at_the_end(path: Seq<char>, index: nat)
    requires
        file_name(path) is Some,
    ensures
        split_path(path.push('/'), index) == split_path(path, index),
{
    assert(path.len() > 0) by {
        if path.len() == 0 {
            assert(stripped(path).skip(name_start(stripped(path))).len() == 0);
        }
    }
    assert(path.push('/').drop_last() =~= path);
    assert(stripped(path.push('/')) == stripped(path));
}

/// A path that ends in the parent of a directory has no file name, and the number alone is the
/// name of a file within it.
pub proof fn lemma_number_alone(dir: Seq<char>, index: nat)
    requires
        dir.len() == 0 || dir.last() == '/',
    ensures
        split_path(dir + seq!['.', '.'], index) == dir + seq!['.', '.'] + seq!['/'] + (seq!['-']
            + three_digits(index)),
        split_path(Seq::empty(), index) == seq!['-'] + three_digits(index),
{
    let dots = seq!['.', '.'];
    let whole = dir + dots;
    assert(whole.last() == '.' && whole[whole.len() - 2] == '.');
    assert(stripped(whole) == whole);
    lemma_name_start(dir, dots);
    assert(whole.skip(dir.len() as int) =~= dots);
    let none = Seq::<char>::empty();
    assert(last_dot(none) is None);
    assert(none + (seq!['-'] + three_digits(index) + none) =~= seq!['-'] + three_digits(index));
    assert(stripped(none) == none);
    assert(none.skip(name_start(none)).len() == 0);
    assert(none + (seq!['-'] + three_digits(index)) =~= seq!['-'] + three_digits(index));
}

/// What a chunk does to a writer of files: its whole frames are counted to the current file, and
/// nothing else changes but that a file with a bound that it reaches is closed. Once that went
/// well the next file starts with no frames under the next number. Without a bound there is one
/// file under the path that was given.
pub proof fn lemma_chunk_by_chunk(r: Rotation, len: nat)
    requires
        r.channels > 0,
    ensures
        r.wrote(len).frames == r.frames + len / r.channels,
        r.wrote(len).open <==> r.per_file == 0 || r.frames + len / r.channels < r.per_file,
        r.filled(len) <==> r.per_file > 0 && r.frames + len / r.channels >= r.per_file,
        r.wrote(len).index == r.index,
        r.wrote(len).base == r.base && r.wrote(len).channels == r.channels
            && r.wrote(len).per_file == r.per_file && r.wrote(len).sample_rate == r.sample_rate,
        r.rotated().frames == 0,
        r.rotated().index == r.index + 1,
        r.rotated().base == r.base && r.rotated().channels == r.channels && r.rotated().per_file
            == r.per_file && r.rotated().sample_rate == r.sample_rate && r.rotated().open == r.open,
        r.per_file == 0 ==> r.path() == r.base,
        r.per_file > 0 ==> r.path() == split_path(r.base, r.index),
{
}

/// A separator more in front of a file name, and a directory that stands for itself there, make no
/// difference.
pub proof fn lemma_superfluous_in_front(dir: Seq<char>, name: Seq<char>, index: nat)
    requires
        dir.len() > 0,
        dir.last() == '/',
        name.len() > 0,
        name != seq!['.'],
        name != seq!['.', '.'],
        forall|i: int| 0 <= i < name.len() ==> #[trigger] name[i] != '/',
    ensures
        split_path(dir.push('/') + name, index) == split_path(dir + name, index),
        split_path(dir.push('.').push('/') + name, index) == split_path(dir + name, index),
{
    let twice = dir.push('/');
    let same = dir.push('.').push('/');
    lemma_any_front(dir, name);
    lemma_any_front(twice, name);
    lemma_any_front(same, name);
    assert(twice.drop_last() =~= dir);
    assert(stripped(twice) == stripped(dir));
    assert(same.drop_last() =~= dir.push('.'));
    assert(dir.push('.').drop_last() =~= dir);
    assert(dir.push('.')[dir.len() - 1] == '/');
    assert(stripped(dir.push('.')) == stripped(dir));
    assert(stripped(same) == stripped(dir.push('.')));
}

proof fn lemma_any_front(dir: Seq<char>, name: Seq<char>)
    requires
        dir.len() > 0,
        dir.last() == '/',
        name.len() > 0,
        name != seq!['.'],
        name != seq!['.', '.'],
        forall|i: int| 0 <= i < name.len() ==> #[trigger] name[i] != '/',
    ensures
        file_name(dir + name) == Some(name),
        directory(dir + name) == stripped(dir),
{
    let whole = dir + name;
    assert(whole.last() == name[name.len() - 1]);
    assert(stripped(whole) == whole) by {
        if whole.last() == '.' && whole.len() > 1 && whole[whole.len() - 2] == '/' {
            if name.len() > 1 {
                assert(whole[whole.len() - 2] == name[name.len() - 2]);
            } else {
                assert(name =~= seq!['.']);
            }
        }
    }
    lemma_name_start(dir, name);
    assert(whole.skip(dir.len() as int) =~= name);
    assert(whole.take(dir.len() as int) =~= dir);
}

} // verus!
