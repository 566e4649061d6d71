//! The computing half of device control: messages, tap points, swipes,
//! screen size, and the decision of each scrolling round.

use vstd::prelude::*;
use vstd::string::*;
use crate::grammar::{find_char, trim};
use crate::parser::trim_str;
use crate::text::{chars_at, chars_of};
use crate::ui_element::{decimal_i32, is_element_visible, parse_decimal_i32, UiElement};

verus! {

/// The message for a failure to start `adb`: a fixed text when the program
/// was not found, else "Failed to execute adb: " and the system's message.
pub fn format_adb_error(not_found: bool, detail: &str) -> (r: String)
    ensures
        r@ == (if not_found {
            "adb is not available in the $PATH directories"@
        } else {
            "Failed to execute adb: "@ + detail@
        }),
{
    if not_found {
        "adb is not available in the $PATH directories".to_owned()
    } else {
        let mut msg = "Failed to execute adb: ".to_owned();
        msg.append(detail);
        msg
    }
}

/// `a / b` rounded toward zero, as Rust's integer division rounds.
pub open spec fn div_trunc(a: int, b: int) -> int {
    if a >= 0 {
        a / b
    } else {
        -((-a) / b)
    }
}

fn div_trunc_exec(a: i64, b: i64) -> (r: i64)
    requires
        b > 0,
        a > i64::MIN,
    ensures
        r == div_trunc(a as int, b as int),
{
    if a >= 0 {
        a / b
    } else {
        -((-a) / b)
    }
}

/// The centre of a box, each coordinate the midpoint rounded toward zero.
pub fn element_center(bounds: (i32, i32, i32, i32)) -> (r: (i32, i32))
    ensures
        r.0 == div_trunc(bounds.0 + bounds.2, 2),
        r.1 == div_trunc(bounds.1 + bounds.3, 2),
{
    let (x1, y1, x2, y2) = bounds;
    let cx = div_trunc_exec(x1 as i64 + x2 as i64, 2);
    let cy = div_trunc_exec(y1 as i64 + y2 as i64, 2);
    (cx as i32, cy as i32)
}

pub open spec fn clamp(v: int, hi: int) -> int {
    let lo_clamped = if v < 0 {
        0
    } else {
        v
    };
    if lo_clamped > hi {
        hi
    } else {
        lo_clamped
    }
}

/// The swipe that scrolls inside a box `(x1, y1, x2, y2)` on a screen
/// `screen_height` tall: `(x, start_y, end_y)`. It runs through the box's
/// horizontal centre, starts a fifth of the screen inside the box's top edge
/// (scrolling up) or bottom edge (scrolling down), moves toward the other
/// edge by at most two fifths of the screen, and stays within the screen.
pub open spec fn swipe_spec(bounds: (i32, i32, i32, i32), screen_height: int, scroll_up: bool) -> (
    int,
    int,
    int,
) {
    let h = screen_height;
    let low = div_trunc(h * 3, 10);
    let high = div_trunc(h * 7, 10);
    let start = if scroll_up {
        low
    } else {
        high
    };
    let end = if scroll_up {
        high
    } else {
        low
    };
    let span = if end - start >= 0 {
        end - start
    } else {
        start - end
    };
    let fifth = div_trunc(h, 5);
    let x = div_trunc(bounds.0 + bounds.2, 2);
    let from = if scroll_up {
        bounds.1 + fifth
    } else {
        bounds.3 - fifth
    };
    let to = if scroll_up {
        let a = bounds.3 - fifth;
        let b = start + span;
        if a < b {
            a
        } else {
            b
        }
    } else {
        let a = bounds.1 + fifth;
        let b = start - span;
        if a > b {
            a
        } else {
            b
        }
    };
    (x, clamp(from, h), clamp(to, h))
}

fn clamp_exec(v: i64, hi: i64) -> (r: i64)
    ensures
        r == clamp(v as int, hi as int),
{
    let lo_clamped = if v < 0 {
        0
    } else {
        v
    };
    if lo_clamped > hi {
        hi
    } else {
        lo_clamped
    }
}

/// The swipe `(x, start_y, end_y)` that scrolls the box `bounds` (see
/// `swipe_spec`).
pub fn scroll_swipe(bounds: (i32, i32, i32, i32), screen_height: i32, scroll_up: bool) -> (r: (
    i32,
    i32,
    i32,
))
    ensures
        (r.0 as int, r.1 as int, r.2 as int) == swipe_spec(bounds, screen_height as int, scroll_up),
{
    let h = screen_height as i64;
    let low = div_trunc_exec(h * 3, 10);
    let high = div_trunc_exec(h * 7, 10);
    let start = if scroll_up {
        low
    } else {
        high
    };
    let end = if scroll_up {
        high
    } else {
        low
    };
    let span = if end - start >= 0 {
        end - start
    } else {
        start - end
    };
    let fifth = div_trunc_exec(h, 5);
    let x = div_trunc_exec(bounds.0 as i64 + bounds.2 as i64, 2);
    let from = if scroll_up {
        bounds.1 as i64 + fifth
    } else {
        bounds.3 as i64 - fifth
    };
    let to = if scroll_up {
        let a = bounds.3 as i64 - fifth;
        let b = start + span;
        if a < b {
            a
        } else {
            b
        }
    } else {
        let a = bounds.1 as i64 + fifth;
        let b = start - span;
        if a > b {
            a
        } else {
            b
        }
    };
    let from_c = clamp_exec(from, h);
    let to_c = clamp_exec(to, h);
    (x as i32, from_c as i32, to_c as i32)
}

} // verus!

verus! {

/// The first position at or after `p` where `w` occurs in `t`.
pub open spec fn word_from(t: Seq<char>, w: Seq<char>, p: int) -> Option<int>
    decreases t.len() + 1 - p,
{
    if p < 0 || p + w.len() > t.len() {
        None
    } else if t.subrange(p, p + w.len()) == w {
        Some(p)
    } else {
        word_from(t, w, p + 1)
    }
}

/// The size that one line of `wm size` output reports: the text after the
/// first `size: `, split at its only `x`, each side trimmed and read as a
/// decimal `i32`.
pub open spec fn size_in_line(l: Seq<char>) -> Option<(i32, i32)> {
    match word_from(l, "size: "@, 0) {
        None => None,
        Some(k) => {
            let rest = l.subrange(k + 6, l.len() as int);
            let x = find_char(rest, 0, 'x');
            if x >= rest.len() || rest.subrange(x + 1, rest.len() as int).contains('x') {
                None
            } else {
                match (
                    decimal_i32(trim(rest.subrange(0, x))),
                    decimal_i32(trim(rest.subrange(x + 1, rest.len() as int))),
                ) {
                    (Some(w), Some(h)) => Some((w, h)),
                    _ => None,
                }
            }
        },
    }
}

/// The size reported by the first line, from position `p` on, that reports
/// one. Lines end at `\n`; a `\r` before it is whitespace that trimming drops.
pub open spec fn size_from(s: Seq<char>, p: int) -> Option<(i32, i32)>
    decreases s.len() - p,
{
    if p < 0 || p > s.len() {
        None
    } else {
        let e = find_char(s, p, '\n');
        match size_in_line(s.subrange(p, e)) {
            Some(r) => Some(r),
            None => if p <= e < s.len() {
                size_from(s, e + 1)
            } else {
                None
            },
        }
    }
}

proof fn lemma_word_from(t: Seq<char>, w: Seq<char>, p: int)
    ensures
        word_from(t, w, p) matches Some(k) ==> p <= k && k + w.len() <= t.len(),
    decreases t.len() + 1 - p,
{
    if !(p < 0 || p + w.len() > t.len()) && t.subrange(p, p + w.len()) != w {
        lemma_word_from(t, w, p + 1);
    }
}

fn find_word(t: &Vec<char>, w: &Vec<char>) -> (r: Option<usize>)
    ensures
        match word_from(t@, w@, 0) {
            Some(k) => r == Some(k as usize),
            None => r is None,
        },
{
    if w.len() > t.len() {
        return None;
    }
    if w.len() == 0 {
        assert(t@.subrange(0, 0) =~= w@);
        return Some(0);
    }
    let mut p: usize = 0;
    while p <= t.len() - w.len()
        invariant
            1 <= w@.len() <= t@.len(),
            p <= t@.len() - w@.len() + 1,
            word_from(t@, w@, p as int) == word_from(t@, w@, 0),
        decreases t@.len() + 1 - p,
    {
        if chars_at(t, p, w) {
            return Some(p);
        }
        p += 1;
    }
    None
}

fn size_of_line(line: &str) -> (r: Option<(i32, i32)>)
    ensures
        r == size_in_line(line@),
{
    proof {
        reveal_strlit("size: ");
    }
    let l = chars_of(line);
    let marker = chars_of("size: ");
    let k = match find_word(&l, &marker) {
        None => {
            return None;
        },
        Some(k) => k,
    };
    proof {
        lemma_word_from(l@, marker@, 0);
    }
    let ln = l.len();
    assert(k + 6 <= ln);
    let rest = line.substring_char(k + 6, l.len());
    let rc = chars_of(rest);
    let mut x: usize = 0;
    while x < rc.len() && rc[x] != 'x'
        invariant
            rc@ == rest@,
            k + 6 <= line@.len(),
            rest@ == line@.subrange(k + 6, line@.len() as int),
            word_from(line@, "size: "@, 0) == Some(k as int),
            x <= rc@.len(),
            find_char(rest@, x as int, 'x') == find_char(rest@, 0, 'x'),
        decreases rc@.len() - x,
    {
        x += 1;
    }
    if x >= rc.len() {
        return None;
    }
    let mut y: usize = x + 1;
    while y < rc.len()
        invariant
            rc@ == rest@,
            k + 6 <= line@.len(),
            rest@ == line@.subrange(k + 6, line@.len() as int),
            word_from(line@, "size: "@, 0) == Some(k as int),
            x as int == find_char(rest@, 0, 'x'),
            x < rc@.len(),
            x + 1 <= y <= rc@.len(),
            forall|j: int| x + 1 <= j < y ==> rc@[j] != 'x',
        decreases rc@.len() - y,
    {
        if rc[y] == 'x' {
            assert(rest@.subrange(x + 1, rest@.len() as int)[y - x - 1] == 'x');
            return None;
        }
        y += 1;
    }
    let ghost tail = rest@.subrange(x + 1, rest@.len() as int);
    assert(!tail.contains('x')) by {
        assert forall|j: int| 0 <= j < tail.len() implies #[trigger] tail[j] != 'x' by {
            assert(rc@[x + 1 + j] != 'x');
        }
    }
    let width = parse_decimal_i32(trim_str(rest.substring_char(0, x)));
    let height = parse_decimal_i32(trim_str(rest.substring_char(x + 1, rc.len())));
    match (width, height) {
        (Some(w), Some(h)) => Some((w, h)),
        _ => None,
    }
}

/// The screen size in `wm size` output ("Physical size: 1080x1920"): the
/// first line that reports one.
pub fn parse_screen_size(output: &str) -> (r: Option<(i32, i32)>)
    ensures
        r == size_from(output@, 0),
{
    let cs = chars_of(output);
    let n = cs.len();
    let mut p: usize = 0;
    loop
        invariant
            cs@ == output@,
            n == output@.len(),
            p <= n,
            size_from(output@, p as int) == size_from(output@, 0),
        decreases n - p,
    {
        let mut e: usize = p;
        while e < n && cs[e] != '\n'
            invariant
                cs@ == output@,
                n == output@.len(),
                p <= e <= n,
                find_char(output@, e as int, '\n') == find_char(output@, p as int, '\n'),
            decreases n - e,
        {
            e += 1;
        }
        match size_of_line(output.substring_char(p, e)) {
            Some(r) => {
                return Some(r);
            },
            None => {},
        }
        if e >= n {
            return None;
        }
        p = e + 1;
    }
}

} // verus!

verus! {

/// What one round of scrolling toward a target does next.
#[derive(Debug, Clone, Copy, PartialEq, Eq, Structural)]
pub enum ScrollAction {
    /// The target is on screen: stop.
    Done,
    /// There is nothing to scroll: fail.
    NoScrollElement,
    /// Swipe vertically at `x` from `from_y` to `to_y`.
    Swipe { x: i32, from_y: i32, to_y: i32 },
}

/// Decides a round of scrolling: stop when the first target element is on
/// a screen `screen_width` by `screen_height`; else fail when no scrollable
/// element was found; else swipe inside the first scrollable element's box.
pub fn next_scroll_action(
    target: Option<&UiElement>,
    scroll_box: Option<(i32, i32, i32, i32)>,
    screen_width: i32,
    screen_height: i32,
    scroll_up: bool,
) -> (r: ScrollAction)
    ensures
        match target {
            Some(t) if t.bounds.0 < screen_width && t.bounds.2 > 0 && t.bounds.1 < screen_height
                && t.bounds.3 > 0 => r == ScrollAction::Done,
            _ => match scroll_box {
                None => r == ScrollAction::NoScrollElement,
                Some(b) => r matches ScrollAction::Swipe { x, from_y, to_y } && (
                    x as int,
                    from_y as int,
                    to_y as int,
                ) == swipe_spec(b, screen_height as int, scroll_up),
            },
        },
{
    if let Some(t) = target {
        if is_element_visible(t, screen_width, screen_height) {
            return ScrollAction::Done;
        }
    }
    match scroll_box {
        None => ScrollAction::NoScrollElement,
        Some(b) => {
            let (x, from_y, to_y) = scroll_swipe(b, screen_height, scroll_up);
            ScrollAction::Swipe { x, from_y, to_y }
        },
    }
}

} // verus!
