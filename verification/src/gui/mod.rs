//! The desktop: window manager, compositor and built-in applications.

pub mod about;
pub mod app;
pub mod browser;
pub mod canvas2d;
pub mod cursor;
pub mod dialog;
pub mod display;
pub mod editor;
pub mod editor_view;
pub mod explorer;
pub mod geom;
pub mod imageview;
pub mod js;
pub mod keep_resolution;
pub mod linuxwin;
pub mod paint;
pub mod painting;
pub mod player;
pub mod screen;
pub mod settings_app;
pub mod shell;
pub mod terminal;
pub mod theme;
pub mod thumbs;
pub mod video;
pub mod views;
pub mod wallpaper;
pub mod waylandwin;
pub mod webfont;
pub mod widgets;
pub mod wm;

use crate::audio::wav;
use crate::fs::entry::FsError;
use crate::fs::path::{ext_of, extension, parent, parts_of, path_of, up};
use crate::text::{dec, has_char, push_dec, push_str, same_str, to_chars, to_text};
use app::{CommandState, Ctx, NewWindow, NewWindowState};
use display::Display;
use shell::words::{lemma_tokens_of_plain_words, lemma_tokens_of_quoted, plain_word, tokens};
use vstd::prelude::*;

verus! {

// ---------------------------------------------------------------------
// The display, as other parts of the system see it
// ---------------------------------------------------------------------

#[verifier::ext_equal]
pub ghost struct DisplayInfoState {
    pub description: Option<Seq<char>>,
    pub modes: Seq<(u32, u32)>,
    pub mode: (u32, u32),
}

/// The display's current mode and the modes it offers.
pub struct DisplayInfo {
    description: Option<String>,
    modes: Vec<(u32, u32)>,
    mode: (u32, u32),
}

impl View for DisplayInfo {
    type V = DisplayInfoState;

    closed spec fn view(&self) -> DisplayInfoState {
        DisplayInfoState {
            description: app::opt_text(self.description),
            modes: self.modes@,
            mode: self.mode,
        }
    }
}

/// A display in words.
pub open spec fn described(d: Display) -> Seq<char> {
    dec(d.extent().0 as nat) + "x"@ + dec(d.extent().1 as nat) + " ("@ + d.spec_name() + ")"@
}

impl DisplayInfo {
    pub fn new() -> (r: DisplayInfo)
        ensures
            r@ == (DisplayInfoState { description: None, modes: Seq::empty(), mode: (0, 0) }),
    {
        DisplayInfo { description: None, modes: Vec::new(), mode: (0, 0) }
    }
}

/// Record the display's current mode and the modes it offers.
pub fn update_display_description(info: &mut DisplayInfo, d: &Display)
    requires
        d.wf(),
    ensures
        final(info)@ == (DisplayInfoState {
            description: Some(described(*d)),
            modes: d.all_modes(),
            mode: d.extent(),
        }),
{
    let (w, h) = d.size();
    let mut text: Vec<char> = Vec::new();
    push_dec(&mut text, w as u64);
    push_str(&mut text, "x");
    push_dec(&mut text, h as u64);
    push_str(&mut text, " (");
    push_str(&mut text, d.name());
    push_str(&mut text, ")");
    proof {
        assert(text@ =~= described(*d));
    }
    info.description = Some(to_text(&text));
    info.modes = d.modes();
    info.mode = (w as u32, h as u32);
}

pub fn display_modes(info: &DisplayInfo) -> (r: &Vec<(u32, u32)>)
    ensures
        r@ == info@.modes,
{
    &info.modes
}

pub fn display_mode(info: &DisplayInfo) -> (r: (u32, u32))
    ensures
        r == info@.mode,
{
    info.mode
}

pub fn display_description(info: &DisplayInfo) -> (r: String)
    ensures
        r@ == match info@.description {
            Some(t) => t,
            None => "none"@,
        },
{
    match &info.description {
        Some(t) => to_text(&to_chars(t.as_str())),
        None => to_text(&to_chars("none")),
    }
}

// ---------------------------------------------------------------------
// Opening files
// ---------------------------------------------------------------------

/// Whether a file begins with four bytes.
pub open spec fn magic(data: Option<Seq<u8>>, a: u8, b: u8, c: u8, d: u8) -> bool {
    data matches Some(s) && s.len() >= 4 && s[0] == a && s[1] == b && s[2] == c && s[3] == d
}

fn has_magic(data: Option<&[u8]>, a: u8, b: u8, c: u8, d: u8) -> (r: bool)
    ensures
        r == magic(bytes_of(data), a, b, c, d),
{
    match data {
        Some(s) => s.len() >= 4 && s[0] == a && s[1] == b && s[2] == c && s[3] == d,
        None => false,
    }
}

pub open spec fn bytes_of(data: Option<&[u8]>) -> Option<Seq<u8>> {
    match data {
        Some(s) => Some(s@),
        None => None,
    }
}

/// The command line that runs the program at a path.
pub open spec fn run_line(path: Seq<char>) -> Seq<char> {
    if path.contains(' ') { seq!['"'] + path + seq!['"'] } else { path }
}

/// What a file is opened with.
pub ghost enum Opened {
    /// A window.
    Window(NewWindowState),
    /// A sound that is played.
    Sound(Seq<i16>),
    Failed(FsError),
}

/// Folders open in the explorer, sounds are played if they can be, programs
/// run in a terminal, everything else opens in the text editor.
pub open spec fn opened(
    path: Seq<char>,
    stat: Result<bool, FsError>,
    data: Option<Seq<u8>>,
    again: Result<Seq<u8>, FsError>,
    audio: bool,
) -> Opened {
    match stat {
        Err(e) => Opened::Failed(e),
        Ok(true) => Opened::Window(NewWindowState::Explorer(path)),
        Ok(false) => {
            if magic(data, 82, 73, 70, 70) && ext_of(path) == Some("wav"@) {
                match again {
                    Err(e) => Opened::Failed(e),
                    Ok(b) => if wav::fault(b) is None && audio {
                        Opened::Sound(wav::contents(b).1)
                    } else {
                        Opened::Window(NewWindowState::Editor(path))
                    },
                }
            } else if magic(data, 0x7f, 69, 76, 70) {
                Opened::Window(
                    NewWindowState::Terminal { dir: path_of(up(parts_of("/"@, path))), command: run_line(path) },
                )
            } else {
                Opened::Window(NewWindowState::Editor(path))
            }
        },
    }
}

pub open spec fn read_again(again: Result<&[u8], FsError>) -> Result<Seq<u8>, FsError> {
    match again {
        Ok(b) => Ok(b@),
        Err(e) => Err(e),
    }
}

/// Open a path with its default app. `stat` tells whether it is a folder,
/// `data` is the file if it could be read, `again` the same read once more
/// for a sound, and `audio` whether sounds can be played. A sound that is to
/// be played is returned.
pub fn open_path(
    path: &str,
    stat: Result<bool, FsError>,
    data: Option<&[u8]>,
    again: Result<&[u8], FsError>,
    audio: bool,
    ctx: &mut Ctx,
) -> (r: Result<Option<Vec<i16>>, FsError>)
    requires
        again matches Ok(b) ==> b@.len() * 48000 <= usize::MAX,
    ensures
        match opened(path@, stat, bytes_of(data), read_again(again), audio) {
            Opened::Failed(e) => r == Err::<Option<Vec<i16>>, FsError>(e) && final(ctx)@ == old(ctx)@,
            Opened::Sound(s) => (r matches Ok(Some(v)) && v@ == s) && final(ctx)@ == old(ctx)@,
            Opened::Window(w) => r == Ok::<Option<Vec<i16>>, FsError>(None) && final(ctx)@ == old(ctx)@.with(
                CommandState::Open(w),
            ),
        },
{
    let chars: Vec<char> = to_chars(path);
    match stat {
        Err(e) => {
            return Err(e);
        },
        Ok(true) => {
            ctx.open(NewWindow::Explorer(to_text(&chars)));
            return Ok(None);
        },
        Ok(false) => {},
    }
    let is_wav: bool = match extension(path) {
        Some(e) => same_str(e.as_str(), "wav"),
        None => false,
    };
    if has_magic(data, 82, 73, 70, 70) && is_wav {
        let b: &[u8] = match again {
            Ok(b) => b,
            Err(e) => {
                return Err(e);
            },
        };
        match wav::decode(b) {
            Ok((_, samples)) => {
                if audio {
                    return Ok(Some(samples));
                }
            },
            Err(_) => {},
        }
        ctx.open(NewWindow::Editor(to_text(&chars)));
        return Ok(None);
    }
    if has_magic(data, 0x7f, 69, 76, 70) {
        let dir: String = parent(path);
        let mut line: Vec<char> = Vec::new();
        if has_char(&chars, ' ') {
            line.push('"');
            crate::text::push_all(&mut line, &chars);
            line.push('"');
        } else {
            crate::text::push_all(&mut line, &chars);
        }
        proof {
            assert(line@ =~= run_line(path@));
        }
        ctx.open(NewWindow::Terminal { dir, command: to_text(&line) });
    } else {
        ctx.open(NewWindow::Editor(to_text(&chars)));
    }
    Ok(None)
}

/// The command line that runs a program is one word, the path itself, for
/// paths without quotes and without white space other than blanks.
pub proof fn lemma_run_line(path: Seq<char>)
    requires
        path.len() > 0,
        forall|i: int|
            0 <= i < path.len() ==> (#[trigger] path[i]) != '"' && path[i] != '\'' && (crate::text::is_white(path[i])
                ==> path[i] == ' '),
    ensures
        tokens(run_line(path)) == seq![path],
{
    if path.contains(' ') {
        lemma_tokens_of_quoted(path, '"');
    } else {
        assert(plain_word(path)) by {
            assert forall|i: int| 0 <= i < path.len() implies !crate::text::is_white(#[trigger] path[i]) by {
                if crate::text::is_white(path[i]) {
                    assert(path.contains(path[i]));
                }
            }
        }
        let ws = seq![path];
        lemma_tokens_of_plain_words(ws);
        assert(crate::text::join(ws, ' ') =~= path);
    }
}

/// What cannot be found opens nothing; a folder opens in the explorer,
/// whatever its name; a program runs in a terminal, in the folder that it is
/// in; and a file that is neither a program nor a sound is edited.
pub proof fn lemma_opens(
    parts: Seq<Seq<char>>,
    name: Seq<char>,
    e: FsError,
    data: Seq<u8>,
    again: Result<Seq<u8>, FsError>,
    audio: bool,
)
    requires
        crate::fs::path::canonical(parts),
        crate::fs::path::proper(name),
        data.len() >= 4,
    ensures
        ({
            let path = path_of(parts.push(name));
            &&& opened(path, Err(e), Some(data), again, audio) == Opened::Failed(e)
            &&& opened(path, Ok(true), Some(data), again, audio) == Opened::Window(NewWindowState::Explorer(path))
            &&& opened(path, Ok(true), None, again, audio) == Opened::Window(NewWindowState::Explorer(path))
            &&& opened(path, Ok(false), None, again, audio) == Opened::Window(NewWindowState::Editor(path))
            &&& data[0] != 0x7f && data[0] != 82 ==> opened(path, Ok(false), Some(data), again, audio) == Opened::Window(
                NewWindowState::Editor(path),
            )
            &&& data.take(4) == seq![0x7fu8, 69, 76, 70] ==> (opened(path, Ok(false), Some(data), again, audio)
                matches Opened::Window(NewWindowState::Terminal { dir, command }) && dir == path_of(parts) && ((forall|i: int|
                0 <= i < path.len() ==> (#[trigger] path[i]) != '"' && path[i] != '\'' && (crate::text::is_white(path[i])
                    ==> path[i] == ' ')) ==> tokens(command) == seq![path]))
        }),
{
    let path = path_of(parts.push(name));
    crate::fs::path::lemma_join_parent_name(parts, name);
    if data.take(4) == seq![0x7fu8, 69, 76, 70] {
        assert(data[0] == data.take(4)[0] && data[1] == data.take(4)[1] && data[2] == data.take(4)[2] && data[3]
            == data.take(4)[3]);
        if forall|i: int|
            0 <= i < path.len() ==> (#[trigger] path[i]) != '"' && path[i] != '\'' && (crate::text::is_white(path[i])
                ==> path[i] == ' ') {
            lemma_run_line(path);
        }
    }
}

/// A sound that can be read is played where sounds can be; elsewhere, like
/// one that cannot be read, it is edited.
pub proof fn lemma_opens_sound(path: Seq<char>, data: Seq<u8>, b: Seq<u8>, audio: bool)
    requires
        data.len() >= 4,
        data.take(4) == seq![82u8, 73, 70, 70],
        ext_of(path) == Some("wav"@),
    ensures
        wav::fault(b) is None && audio ==> opened(path, Ok(false), Some(data), Ok(b), audio) == Opened::Sound(
            wav::contents(b).1,
        ),
        !audio || wav::fault(b) is Some ==> opened(path, Ok(false), Some(data), Ok(b), audio) == Opened::Window(
            NewWindowState::Editor(path),
        ),
{
    assert(data[0] == data.take(4)[0] && data[1] == data.take(4)[1] && data[2] == data.take(4)[2] && data[3]
        == data.take(4)[3]);
}

// ---------------------------------------------------------------------
// The desktop loop
// ---------------------------------------------------------------------

/// Whether the desktop handles one more event before the next frame.
pub fn more_events(handled: u32) -> (r: bool)
    ensures
        r == (handled <= 256),
{
    handled <= 256
}

} // verus!
