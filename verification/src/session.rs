use vstd::prelude::*;
use vstd::string::*;

use crate::user_interaction_helpers::{
    alert_about_invalid_world_file,
    alert_about_io_error_with_world_file,
    invalid_world_file_before_error,
    io_error_before_error,
    world_file_after_error,
    Alert,
    AlertKind,
};

verus! {

/// The program's name, as shown in the window's title.
pub const APP_NAME: &'static str = "Skean's Wonderful Bézier Emporium";

/// The position of the last `c` in `s`, or -1 when `s` holds none.
pub open spec fn last_index_of(s: Seq<char>, c: char) -> int
    decreases s.len(),
{
    if s.len() == 0 {
        -1
    } else if s.last() == c {
        s.len() - 1
    } else {
        last_index_of(s.drop_last(), c)
    }
}

/// The file name of a path, as `std::path::Path::file_name` gives it on
/// Unix-like systems: the last component between `/`s, where empty
/// components and `.` components are skipped, and none when that
/// component is `..` or when there is no such component.
pub open spec fn file_name_of(path: Seq<char>) -> Option<Seq<char>>
    decreases path.len(),
{
    if path.len() == 0 {
        None
    } else {
        let i = last_index_of(path, '/');
        let piece = path.subrange(i + 1, path.len() as int);
        if piece.len() == 0 || piece == seq!['.'] {
            if 0 <= i < path.len() {
                file_name_of(path.take(i))
            } else {
                None
            }
        } else if piece == seq!['.', '.'] {
            None
        } else {
            Some(piece)
        }
    }
}

/// The extension of a file name: what follows its last `.`, when that `.`
/// is not the name's first character.
pub open spec fn extension_of_file_name(name: Seq<char>) -> Option<Seq<char>> {
    let d = last_index_of(name, '.');
    if d <= 0 {
        None
    } else {
        Some(name.subrange(d + 1, name.len() as int))
    }
}

/// The extension of a path, as `std::path::Path::extension` gives it on
/// Unix-like systems: the extension of its file name, if it has one.
pub open spec fn path_extension_of(path: Seq<char>) -> Option<Seq<char>> {
    match file_name_of(path) {
        Some(name) => extension_of_file_name(name),
        None => None,
    }
}

/// `last_index_of` on a prefix one longer whose new last element is not
/// `c` is `last_index_of` on the shorter prefix.
proof fn lemma_last_index_step(s: Seq<char>, c: char, j: int)
    requires
        0 <= j < s.len(),
    ensures
        s[j] == c ==> last_index_of(s.take(j + 1), c) == j,
        s[j] != c ==> last_index_of(s.take(j + 1), c) == last_index_of(s.take(j), c),
{
    assert(s.take(j + 1).drop_last() =~= s.take(j));
    assert(s.take(j + 1).last() == s[j]);
}

/// `last_index_of` is -1 or a position of `c`.
proof fn lemma_last_index_range(s: Seq<char>, c: char)
    ensures
        -1 <= last_index_of(s, c) < s.len(),
        last_index_of(s, c) >= 0 ==> s[last_index_of(s, c)] == c,
    decreases s.len(),
{
    if s.len() > 0 && s.last() != c {
        lemma_last_index_range(s.drop_last(), c);
    }
}

/// The last `c` of two sequences one after the other is the last `c` of
/// the second one when it has one, and that of the first one otherwise.
proof fn lemma_last_index_concat(a: Seq<char>, b: Seq<char>, c: char)
    ensures
        last_index_of(a + b, c) == (if last_index_of(b, c) >= 0 {
            a.len() + last_index_of(b, c)
        } else {
            last_index_of(a, c)
        }),
    decreases b.len(),
{
    if b.len() == 0 {
        assert(a + b =~= a);
    } else {
        assert((a + b).drop_last() =~= a + b.drop_last());
        assert((a + b).last() == b.last());
        lemma_last_index_concat(a, b.drop_last(), c);
    }
}

/// The last `c` of a one-element sequence.
proof fn lemma_last_index_single(x: char, c: char)
    ensures
        last_index_of(seq![x], c) == (if x == c {
            0int
        } else {
            -1int
        }),
{
    assert(seq![x].drop_last() =~= Seq::<char>::empty());
    assert(seq![x].last() == x);
    assert(last_index_of(Seq::<char>::empty(), c) == -1);
}

/// A sequence without `c` has no last `c`.
proof fn lemma_last_index_absent(s: Seq<char>, c: char)
    requires
        !s.contains(c),
    ensures
        last_index_of(s, c) == -1,
    decreases s.len(),
{
    if s.len() > 0 {
        assert(s.last() == s[s.len() - 1]);
        assert(!s.drop_last().contains(c)) by {
            if s.drop_last().contains(c) {
                let k = choose|k: int| 0 <= k < s.drop_last().len() && s.drop_last()[k] == c;
                assert(s[k] == c);
            }
        }
        lemma_last_index_absent(s.drop_last(), c);
    }
}

/// A file name made of a stem, a `.` and an extension without `.` has that
/// extension, whatever dots the stem holds, provided the stem is not empty
/// and the name is not `..`.
pub proof fn lemma_extension_after_last_dot(stem: Seq<char>, ext: Seq<char>)
    requires
        stem.len() > 0,
        !stem.contains('/'),
        !ext.contains('/'),
        !ext.contains('.'),
        !(stem == seq!['.'] && ext.len() == 0),
    ensures
        path_extension_of(stem + seq!['.'] + ext) == Some(ext),
{
    let name = stem + seq!['.'] + ext;
    lemma_last_index_concat(stem + seq!['.'], ext, '/');
    lemma_last_index_concat(stem, seq!['.'], '/');
    lemma_last_index_absent(stem, '/');
    lemma_last_index_absent(ext, '/');
    lemma_last_index_single('.', '/');
    assert(last_index_of(name, '/') == -1);
    assert(name.subrange(0, name.len() as int) =~= name);
    assert(name != seq!['.']) by {
        assert(name.len() >= 2);
    }
    assert(name != seq!['.', '.']) by {
        if name.len() == 2 {
            assert(stem.len() == 1 && ext.len() == 0);
            assert(name[0] == stem[0]);
            if name =~= seq!['.', '.'] {
                assert(stem =~= seq!['.']);
            }
        }
    }
    assert(file_name_of(name) == Some(name));
    lemma_last_index_concat(stem + seq!['.'], ext, '.');
    lemma_last_index_absent(ext, '.');
    lemma_last_index_concat(stem, seq!['.'], '.');
    lemma_last_index_single('.', '.');
    assert(last_index_of(name, '.') == stem.len());
    assert(name.subrange(stem.len() + 1 as int, name.len() as int) =~= ext);
}

/// A file name without a `.` has no extension, and neither has one whose
/// only `.` is its first character.
pub proof fn lemma_no_extension_without_inner_dot(name: Seq<char>)
    requires
        name.len() > 0,
        !name.contains('/'),
        !name.drop_first().contains('.'),
    ensures
        path_extension_of(name) is None,
{
    lemma_last_index_absent(name, '/');
    assert(name.subrange(0, name.len() as int) =~= name);
    assert(name =~= seq![name[0]] + name.drop_first());
    lemma_last_index_concat(seq![name[0]], name.drop_first(), '.');
    lemma_last_index_absent(name.drop_first(), '.');
    lemma_last_index_single(name[0], '.');
    assert(last_index_of(name, '.') <= 0);
}

/// The directories in front of a file name do not change its extension.
pub proof fn lemma_extension_ignores_directories(dir: Seq<char>, name: Seq<char>)
    requires
        name.len() > 0,
        !name.contains('/'),
        name != seq!['.'],
        name != seq!['.', '.'],
    ensures
        path_extension_of(dir + seq!['/'] + name) == path_extension_of(name),
{
    let p = dir + seq!['/'] + name;
    lemma_last_index_concat(dir + seq!['/'], name, '/');
    lemma_last_index_concat(dir, seq!['/'], '/');
    lemma_last_index_absent(name, '/');
    assert(seq!['/'].drop_last() =~= Seq::<char>::empty());
    assert(last_index_of(p, '/') == dir.len());
    assert(p.subrange(dir.len() + 1 as int, p.len() as int) =~= name);
    assert(name.subrange(0, name.len() as int) =~= name);
}

/// Trailing `/`s and `/.`s do not change a path's extension.
pub proof fn lemma_extension_ignores_trailing_separators(path: Seq<char>)
    ensures
        path_extension_of(path + seq!['/']) == path_extension_of(path),
        path_extension_of(path + seq!['/', '.']) == path_extension_of(path),
{
    let a = path + seq!['/'];
    assert(a.last() == '/');
    assert(a.take(path.len() as int) =~= path);
    assert(a.subrange(path.len() + 1 as int, a.len() as int) =~= Seq::<char>::empty());
    let b = path + seq!['/', '.'];
    lemma_last_index_concat(path, seq!['/', '.'], '/');
    assert(seq!['/', '.'] =~= seq!['/'] + seq!['.']);
    lemma_last_index_concat(seq!['/'], seq!['.'], '/');
    lemma_last_index_single('/', '/');
    lemma_last_index_single('.', '/');
    assert(last_index_of(seq!['/', '.'], '/') == 0);
    assert(b.subrange(path.len() + 1 as int, b.len() as int) =~= seq!['.']);
    assert(b.take(path.len() as int) =~= path);
}

/// The last position of `c` in `chars[start..end]`, counted from the start
/// of `chars`.
fn last_index_in(chars: &Vec<char>, c: char, start: usize, end: usize) -> (r: Option<usize>)
    requires
        start <= end <= chars@.len(),
    ensures
        match r {
            Some(i) => start <= i < end && i - start == last_index_of(
                chars@.subrange(start as int, end as int),
                c,
            ),
            None => last_index_of(chars@.subrange(start as int, end as int), c) == -1,
        },
{
    let ghost piece = chars@.subrange(start as int, end as int);
    let mut j = end;
    assert(piece.take(end - start) =~= piece);
    while j > start
        invariant
            start <= j <= end <= chars@.len(),
            piece == chars@.subrange(start as int, end as int),
            last_index_of(piece, c) == last_index_of(piece.take(j - start), c),
        decreases j,
    {
        proof {
            lemma_last_index_step(piece, c, j - 1 - start);
        }
        if chars[j - 1] == c {
            return Some(j - 1);
        }
        j = j - 1;
    }
    assert(piece.take(0) =~= Seq::<char>::empty());
    None
}

/// The extension of `path`, found by the rule of `std::path::Path::extension`
/// on Unix-like systems.
fn path_extension(path: &str) -> (ext: Option<String>)
    ensures
        ext.deep_view() == path_extension_of(path@),
{
    let n = path.unicode_len();
    let mut chars: Vec<char> = Vec::new();
    for k in 0..n
        invariant
            n == path@.len(),
            chars@ == path@.take(k as int),
    {
        chars.push(path.get_char(k));
        assert(path@.take(k + 1) =~= path@.take(k as int).push(path@[k as int]));
    }
    assert(chars@ =~= path@);
    let mut end = n;
    loop
        invariant
            end <= n,
            n == path@.len(),
            chars@ == path@,
            file_name_of(path@) == file_name_of(path@.take(end as int)),
        decreases end,
    {
        let ghost prefix = path@.take(end as int);
        if end == 0 {
            assert(prefix.len() == 0);
            return None;
        }
        let slash = last_index_in(&chars, '/', 0, end);
        assert(chars@.subrange(0, end as int) =~= prefix);
        let start = match slash {
            Some(i) => i + 1,
            None => 0,
        };
        proof {
            lemma_last_index_range(prefix, '/');
        }
        let ghost piece = prefix.subrange(start as int, end as int);
        assert(piece =~= prefix.subrange(last_index_of(prefix, '/') + 1, prefix.len() as int));
        if start == end || (end - start == 1 && chars[start] == '.') {
            assert(piece.len() == 0 || piece =~= seq!['.']);
            match slash {
                Some(i) => {
                    assert(prefix.take(i as int) =~= path@.take(i as int));
                    end = i;
                },
                None => {
                    return None;
                },
            }
        } else if end - start == 2 && chars[start] == '.' && chars[start + 1] == '.' {
            assert(piece =~= seq!['.', '.']);
            return None;
        } else {
            assert(piece.len() != 0);
            assert(piece != seq!['.']) by {
                if piece.len() == 1 {
                    assert(piece[0] == chars@[start as int]);
                }
            }
            assert(piece != seq!['.', '.']) by {
                if piece.len() == 2 {
                    assert(piece[0] == chars@[start as int]);
                    assert(piece[1] == chars@[start + 1]);
                }
            }
            assert(file_name_of(prefix) == Some(piece));
            let dot = last_index_in(&chars, '.', start, end);
            assert(chars@.subrange(start as int, end as int) =~= piece);
            match dot {
                Some(d) => {
                    if d == start {
                        return None;
                    }
                    let e = path.substring_char(d + 1, end);
                    assert(e@ =~= piece.subrange(d - start + 1, piece.len() as int));
                    return Some(String::from_str(e));
                },
                None => {
                    return None;
                },
            }
        }
    }
}

/// Whether images can be saved under a path with this extension.
pub open spec fn is_image_extension(ext: Option<Seq<char>>) -> bool {
    ext == Some("ppm"@) || ext == Some("bmp"@)
}

/// Whether `s` holds exactly `word`.
fn string_is(s: &String, word: &str) -> (b: bool)
    ensures
        b == (s@ == word@),
{
    let w = String::from_str(word);
    *s == w
}

/// The output path that validation keeps: one whose extension is `ppm` or
/// `bmp`.
pub open spec fn validated_output(output_path: Option<Seq<char>>) -> Option<Seq<char>> {
    match output_path {
        Some(p) => if is_image_extension(path_extension_of(p)) {
            Some(p)
        } else {
            None
        },
        None => None,
    }
}

/// The command line: where to load the world from, and where to save the
/// image when the program ends.
pub struct Cli {
    pub world_path: Option<String>,
    pub output_path: Option<String>,
}

impl Cli {
    /// This command line, with the output path kept only when
    /// `output_extension`, the extension of that path, is `ppm` or `bmp`.
    pub fn validate_with_extension(&self, output_extension: Option<String>) -> (c: Cli)
        ensures
            c.world_path.deep_view() == self.world_path.deep_view(),
            c.output_path.deep_view() == (if is_image_extension(output_extension.deep_view()) {
                self.output_path.deep_view()
            } else {
                None
            }),
    {
        let keep = match &output_extension {
            Some(e) => string_is(e, "ppm") || string_is(e, "bmp"),
            None => false,
        };
        let world_path = match &self.world_path {
            Some(p) => Some(p.clone()),
            None => None,
        };
        let output_path = if keep {
            match &self.output_path {
                Some(p) => Some(p.clone()),
                None => None,
            }
        } else {
            None
        };
        Cli { world_path, output_path }
    }

    /// This command line, with the output path dropped unless it has the
    /// extension `ppm` or `bmp`.
    pub fn validate(&self) -> (c: Cli)
        ensures
            c.world_path.deep_view() == self.world_path.deep_view(),
            c.output_path.deep_view() == validated_output(self.output_path.deep_view()),
    {
        let ext = match &self.output_path {
            Some(p) => path_extension(p.as_str()),
            None => None,
        };
        self.validate_with_extension(ext)
    }
}

/// The formats an image can be saved in.
#[derive(Clone, Copy, Debug, PartialEq, Eq, Structural)]
pub enum SaveFormat {
    Ppm,
    Bmp,
    Unsupported,
}

/// The format for a path with extension `ext`.
pub open spec fn save_format_for(ext: Option<Seq<char>>) -> SaveFormat {
    if ext == Some("ppm"@) {
        SaveFormat::Ppm
    } else if ext == Some("bmp"@) {
        SaveFormat::Bmp
    } else {
        SaveFormat::Unsupported
    }
}

/// The format to save an image in, given the extension of its path.
pub fn save_format_for_extension(ext: Option<String>) -> (f: SaveFormat)
    ensures
        f == save_format_for(ext.deep_view()),
        (f == SaveFormat::Ppm) <==> ext.deep_view() == Some("ppm"@),
        (f == SaveFormat::Bmp) <==> ext.deep_view() == Some("bmp"@),
{
    proof {
        lemma_only_ppm_and_bmp_are_saved(ext.deep_view());
    }
    match &ext {
        Some(e) => if string_is(e, "ppm") {
            SaveFormat::Ppm
        } else if string_is(e, "bmp") {
            SaveFormat::Bmp
        } else {
            SaveFormat::Unsupported
        },
        None => SaveFormat::Unsupported,
    }
}

/// The format to save an image in, by the extension of its path.
pub fn save_format(path: &str) -> (f: SaveFormat)
    ensures
        f == save_format_for(path_extension_of(path@)),
{
    save_format_for_extension(path_extension(path))
}

/// Only the extensions `ppm` and `bmp` can be saved: `ppm` as PPM, `bmp`
/// as BMP, and every other extension, or none, is unsupported.
pub proof fn lemma_only_ppm_and_bmp_are_saved(ext: Option<Seq<char>>)
    ensures
        (save_format_for(ext) == SaveFormat::Ppm) <==> ext == Some("ppm"@),
        (save_format_for(ext) == SaveFormat::Bmp) <==> ext == Some("bmp"@),
        (save_format_for(ext) != SaveFormat::Unsupported) <==> is_image_extension(ext),
{
    reveal_strlit("ppm");
    reveal_strlit("bmp");
    assert("ppm"@[0] != "bmp"@[0]);
}

/// Validation keeps an output path exactly when an image can be saved
/// under it.
pub proof fn lemma_validate_keeps_exactly_saveable_paths(path: Seq<char>)
    ensures
        validated_output(Some(path)) is Some <==> save_format_for(path_extension_of(path))
            != SaveFormat::Unsupported,
{
    lemma_only_ppm_and_bmp_are_saved(path_extension_of(path));
}

/// Validating a command line twice keeps what validating it once keeps.
pub proof fn lemma_validate_idempotent(output_path: Option<Seq<char>>)
    ensures
        validated_output(validated_output(output_path)) == validated_output(output_path),
{
}

/// An output path that validation keeps can be saved: its format is PPM or
/// BMP, never unsupported.
pub proof fn lemma_validated_output_is_saveable(output_path: Option<Seq<char>>)
    ensures
        validated_output(output_path) matches Some(p) ==> save_format_for(path_extension_of(p))
            != SaveFormat::Unsupported,
{
}

/// Where the image goes when the program ends.
pub enum FinalOutput {
    /// Standard output, as plain PPM text.
    Stdout,
    /// The file at this path.
    File(String),
    /// Nowhere.
    Nothing,
}

/// Where the image goes when the program ends: standard output for the
/// path `-`, the file for another path, and nowhere without a path.
pub fn final_output(output_path: Option<String>) -> (o: FinalOutput)
    ensures
        match output_path {
            Some(p) => if p@ == "-"@ {
                o is Stdout
            } else {
                o matches FinalOutput::File(q) && q@ == p@
            },
            None => o is Nothing,
        },
{
    match output_path {
        Some(p) => if string_is(&p, "-") {
            FinalOutput::Stdout
        } else {
            FinalOutput::File(p)
        },
        None => FinalOutput::Nothing,
    }
}

/// What to do when the user asks to quit.
#[derive(Clone, Copy, Debug, PartialEq, Eq, Structural)]
pub enum QuitAction {
    /// Quit at once.
    Quit,
    /// Ask first whether to quit while the image is unfinished.
    AskFirst,
}

/// Asks first only when the image is still being drawn and is to be saved
/// when the program ends.
pub fn on_quit_request(drawing_in_progress: bool, output_path_set: bool) -> (a: QuitAction)
    ensures
        a == (if drawing_in_progress && output_path_set {
            QuitAction::AskFirst
        } else {
            QuitAction::Quit
        }),
{
    if drawing_in_progress && output_path_set {
        QuitAction::AskFirst
    } else {
        QuitAction::Quit
    }
}

/// The window's title once a world has been loaded from a file named
/// `file_name`.
pub fn window_title(file_name: &str) -> (title: String)
    ensures
        title@ == file_name@ + " - "@ + APP_NAME@,
{
    let mut title = String::from_str(file_name);
    title.append(" - ");
    title.append(APP_NAME);
    title
}

/// Why a world could not be loaded.
#[derive(Clone, Copy, Debug, PartialEq, Eq, Structural)]
pub enum WorldLoadFailure {
    /// The file could not be read.
    Io,
    /// The file was read but does not hold a valid world.
    Invalid,
}

impl Cli {
    /// Records that loading the world failed, and gives the alert to show.
    /// The world path is forgotten after an I/O error, and after any error
    /// with a path given on the command line; the user is then asked for
    /// a new one.
    pub fn on_world_load_failure(
        &mut self,
        failure: WorldLoadFailure,
        specified_as_arg: bool,
        error_text: &str,
    ) -> (a: Alert)
        ensures
            final(self).output_path == old(self).output_path,
            (failure == WorldLoadFailure::Io || specified_as_arg) ==> final(self).world_path is None,
            !(failure == WorldLoadFailure::Io || specified_as_arg) ==> final(self).world_path
                == old(self).world_path,
            a.from_arg == specified_as_arg,
            a.kind == AlertKind::Error,
            a.title@ == "Invalid World File"@,
            a.message@ == (if failure == WorldLoadFailure::Io {
                io_error_before_error(specified_as_arg)
            } else {
                invalid_world_file_before_error(specified_as_arg)
            }) + error_text@ + world_file_after_error(specified_as_arg),
    {
        match failure {
            WorldLoadFailure::Io => {
                self.world_path = None;
                alert_about_io_error_with_world_file(specified_as_arg, error_text)
            },
            WorldLoadFailure::Invalid => {
                if specified_as_arg {
                    self.world_path = None;
                }
                alert_about_invalid_world_file(specified_as_arg, error_text)
            },
        }
    }
}

} // verus!
