//! The viewer's decisions: the mode named on the command line, what a key
//! press does, when a resize needs a new frame size, and the text of the
//! playback progress bar.
use vstd::prelude::*;
use crate::renderer::{Mode, Renderer, fit_size, min, target_size_fits};
use crate::text::{
    chars_of, decimal, decimal2, push_char, push_decimal, push_decimal2, same_chars,
};

verus! {

/// The mode named `name`: `ascii`, `braille` or `kanji`; any other name
/// selects `Color`.
pub open spec fn mode_named(name: Seq<char>) -> Mode {
    if name == "ascii"@ {
        Mode::Ascii
    } else if name == "braille"@ {
        Mode::Braille
    } else if name == "kanji"@ {
        Mode::Kanji
    } else {
        Mode::Color
    }
}

/// The rendering mode named on the command line.
pub fn mode_from_name(name: &str) -> (m: Mode)
    ensures
        m == mode_named(name@),
{
    let n = chars_of(name);
    if same_chars(&n, &chars_of("ascii")) {
        Mode::Ascii
    } else if same_chars(&n, &chars_of("braille")) {
        Mode::Braille
    } else if same_chars(&n, &chars_of("kanji")) {
        Mode::Kanji
    } else {
        Mode::Color
    }
}

/// A key press, as far as the viewer tells keys apart.
#[derive(Clone, Copy, PartialEq, Eq, Debug, Structural)]
pub enum Key {
    Char(char),
    Esc,
    Left,
    Right,
    Other,
}

/// What a key press asks for.
#[derive(Clone, Copy, PartialEq, Eq, Debug, Structural)]
pub enum KeyAction {
    /// Leave the viewer.
    Quit,
    /// Move the playback position by this many seconds.
    SeekBy(i32),
    /// Nothing.
    Ignore,
}

/// `q`, Esc and Ctrl-C quit; Right and Left seek 5 seconds forward and
/// back, 30 with Shift.
pub open spec fn key_action_of(key: Key, ctrl: bool, shift: bool) -> KeyAction {
    if key == Key::Char('q') || key == Key::Esc || (key == Key::Char('c') && ctrl) {
        KeyAction::Quit
    } else {
        let amount: i32 = if shift {
            30
        } else {
            5
        };
        match key {
            Key::Right => KeyAction::SeekBy(amount),
            Key::Left => KeyAction::SeekBy((-amount) as i32),
            _ => KeyAction::Ignore,
        }
    }
}

/// What pressing `key` (with Control and Shift as given) asks for.
pub fn key_action(key: Key, ctrl: bool, shift: bool) -> (a: KeyAction)
    ensures
        a == key_action_of(key, ctrl, shift),
{
    let quit = match key {
        Key::Char(c) => c == 'q' || (c == 'c' && ctrl),
        Key::Esc => true,
        _ => false,
    };
    if quit {
        return KeyAction::Quit;
    }
    let amount: i32 = if shift {
        30
    } else {
        5
    };
    match key {
        Key::Right => KeyAction::SeekBy(amount),
        Key::Left => KeyAction::SeekBy(-amount),
        _ => KeyAction::Ignore,
    }
}

/// Left undoes Right: with the same modifiers, the two arrows seek by
/// opposite amounts.
pub proof fn lemma_left_undoes_right(ctrl: bool, shift: bool)
    ensures
        key_action_of(Key::Right, ctrl, shift) matches KeyAction::SeekBy(a) && key_action_of(
            Key::Left,
            ctrl,
            shift,
        ) matches KeyAction::SeekBy(b) && a + b == 0,
{
}

/// The key bindings, for any modifiers: `q` and Esc quit, as does Ctrl+C;
/// Right seeks 5 seconds forward and Left 5 back, 30 with Shift; any other
/// key does nothing.
pub proof fn lemma_key_bindings(c: char, ctrl: bool, shift: bool)
    ensures
        key_action_of(Key::Char('q'), ctrl, shift) == KeyAction::Quit,
        key_action_of(Key::Esc, ctrl, shift) == KeyAction::Quit,
        key_action_of(Key::Char('c'), true, shift) == KeyAction::Quit,
        key_action_of(Key::Right, ctrl, shift) == KeyAction::SeekBy(
            if shift {
                30i32
            } else {
                5i32
            },
        ),
        key_action_of(Key::Left, ctrl, shift) == KeyAction::SeekBy(
            if shift {
                -30i32
            } else {
                -5i32
            },
        ),
        c != 'q' && !(c == 'c' && ctrl) ==> key_action_of(Key::Char(c), ctrl, shift) == KeyAction::Ignore,
        key_action_of(Key::Other, ctrl, shift) == KeyAction::Ignore,
{
}

/// The frame size after the terminal becomes `cols`×`rows`, when it differs
/// from the current `cur_tw`×`cur_th` (then the stream is restarted at the
/// new size); `None` when it stays the same.
pub fn resize_target(
    renderer: &Renderer,
    cols: u16,
    rows: u16,
    src_w: u32,
    src_h: u32,
    cur_tw: u16,
    cur_th: u16,
) -> (r: Option<(u16, u16)>)
    requires
        src_w == 0 || src_h == 0 ==> target_size_fits(renderer.mode_of(), cols as int, rows as int),
    ensures
        ({
            let f = fit_size(renderer.mode_of(), cols as int, rows as int, src_w as int, src_h as int);
            r == if f.0 != cur_tw || f.1 != cur_th {
                Some(f)
            } else {
                None
            }
        }),
{
    let (nw, nh) = renderer.target_size_fit(cols, rows, src_w, src_h);
    if nw != cur_tw || nh != cur_th {
        Some((nw, nh))
    } else {
        None
    }
}

/// Columns left for the progress bar on a `cols`-wide terminal (14 go to
/// the two clocks and their spacing).
pub open spec fn bar_width_of(cols: int) -> int {
    if cols > 14 {
        cols - 14
    } else {
        0
    }
}

pub fn bar_width(cols: u16) -> (w: usize)
    ensures
        w == bar_width_of(cols as int),
{
    (cols as usize).saturating_sub(14)
}

/// `n` spaces.
pub open spec fn spaces(n: int) -> Seq<char> {
    Seq::new(n as nat, |i: int| ' ')
}

/// `mm:ss` (minutes zero-padded to at least two digits).
pub open spec fn clock(secs: int) -> Seq<char> {
    decimal2((secs / 60) as nat) + seq![':'] + decimal2((secs % 60) as nat)
}

/// The progress line drawn on terminal row `row` of a `cols`-wide
/// terminal: position clock, a bar whose first `filled` cells are shown in
/// reverse video, duration clock.
pub open spec fn progress_text(row: int, cols: int, pos_secs: int, dur_secs: int, filled: int) -> Seq<
    char,
> {
    let bw = bar_width_of(cols);
    "\x1b["@ + decimal(row as nat) + ";1H\x1b[0m "@ + clock(pos_secs) + " \x1b[7m"@ + spaces(
        min(filled, bw),
    ) + "\x1b[0m"@ + spaces(if bw > filled {
        bw - filled
    } else {
        0
    }) + seq![' '] + clock(dur_secs)
}

/// The bar always spans exactly its width: the reverse-video part and the
/// rest together take `bar_width_of(cols)` cells, whatever `filled` is.
pub proof fn lemma_bar_spans_width(cols: int, filled: int)
    requires
        filled >= 0,
    ensures
        ({
            let bw = bar_width_of(cols);
            min(filled, bw) + (if bw > filled {
                bw - filled
            } else {
                0
            }) == bw
        }),
{
}

fn push_spaces(s: &mut String, n: usize)
    ensures
        final(s)@ == old(s)@ + spaces(n as int),
{
    let mut i: usize = 0;
    while i < n
        invariant
            i <= n,
            s@ == old(s)@ + spaces(i as int),
        decreases n - i,
    {
        push_char(s, ' ');
        i = i + 1;
        assert(s@ =~= old(s)@ + spaces(i as int));
    }
}

fn push_clock(s: &mut String, secs: u32)
    ensures
        final(s)@ == old(s)@ + clock(secs as int),
{
    push_decimal2(s, secs / 60);
    push_char(s, ':');
    push_decimal2(s, secs % 60);
    assert(s@ =~= old(s)@ + clock(secs as int));
}

/// The progress line for position `pos_secs` of `dur_secs` seconds with
/// `filled` bar cells done, drawn on row `row` of a `cols`-wide terminal.
pub fn progress_bar(row: u16, cols: u16, pos_secs: u32, dur_secs: u32, filled: usize) -> (s: String)
    ensures
        s@ == progress_text(row as int, cols as int, pos_secs as int, dur_secs as int, filled as int),
{
    let bw = bar_width(cols);
    let mut s = String::new();
    s.append("\x1b[");
    push_decimal(&mut s, row as u32);
    s.append(";1H\x1b[0m ");
    push_clock(&mut s, pos_secs);
    s.append(" \x1b[7m");
    push_spaces(
        &mut s,
        if filled < bw {
            filled
        } else {
            bw
        },
    );
    s.append("\x1b[0m");
    push_spaces(&mut s, bw.saturating_sub(filled));
    push_char(&mut s, ' ');
    push_clock(&mut s, dur_secs);
    assert(s@ =~= progress_text(
        row as int,
        cols as int,
        pos_secs as int,
        dur_secs as int,
        filled as int,
    ));
    s
}

} // verus!
