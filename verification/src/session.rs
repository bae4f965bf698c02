//! The interactive render session: current viewport, debounced zoom
//! input, and single-flight deferred rendering.
//!
//! The session is a state machine with two logical states — idle and
//! pending — driven by two events: a wheel input and the debounce
//! timer firing. A wheel input never commits a viewport; it computes
//! the prospective one, cancels any outstanding timer and schedules a
//! fresh one, so at most one timer is ever outstanding and only the
//! most recent input within the debounce window can reach the screen.
//! Committed viewports are kept quantized to a fixed denominator so
//! that any number of zooms stays within exact 64-bit arithmetic;
//! when even the quantized rectangle would collapse or leave the
//! representable window (a deep-zoom limit of the representation, not
//! of the design) the input is ignored rather than committed wrongly.

use crate::escape::tdiv;
use crate::viewport::q_wf;
use crate::viewport::scale_spec;
use crate::viewport::Bounds;
use crate::viewport::QBounds;
use vstd::prelude::*;

verus! {

/// Debounce window in milliseconds.
pub const DEBOUNCE_MS: u64 = 200;

/// The fixed denominator committed session viewports are quantized to.
pub const SESSION_DEN: i64 = 0x100_0000_0000;

/// An outstanding deferred render.
#[derive(Clone, Copy, PartialEq, Eq, Structural, Debug)]
pub struct Pending {
    pub timer: u64,
    pub deadline_ms: u64,
    pub target: Bounds,
}

/// What the caller must do after a wheel event: cancel the superseded
/// timer, schedule the new one, and show the visual-only zoom hint.
#[derive(Clone, Copy, PartialEq, Eq, Structural, Debug)]
pub struct ZoomEffect {
    pub cancel: Option<u64>,
    pub schedule: Option<u64>,
    pub deadline_ms: u64,
    pub zoom_in: bool,
    pub cursor_x: u32,
    pub cursor_y: u32,
}

/// A render to perform and present.
#[derive(Clone, Copy, PartialEq, Eq, Structural, Debug)]
pub struct RenderCmd {
    pub bounds: Bounds,
    pub width: u32,
    pub height: u32,
}

/// The interactive session state.
#[derive(Clone, Copy, PartialEq, Eq, Structural, Debug)]
pub struct Session {
    pub bounds: Bounds,
    pub width: u32,
    pub height: u32,
    pub pending: Option<Pending>,
    pub next_timer: u64,
}

/// A viewport the session may hold: quantized denominator, coordinates
/// within `[-64, 64]`.
pub open spec fn session_ok(q: QBounds) -> bool {
    &&& q_wf(q)
    &&& q.den == SESSION_DEN
    &&& -64 * SESSION_DEN <= q.x0 <= 64 * SESSION_DEN
    &&& -64 * SESSION_DEN <= q.x1 <= 64 * SESSION_DEN
    &&& -64 * SESSION_DEN <= q.y0 <= 64 * SESSION_DEN
    &&& -64 * SESSION_DEN <= q.y1 <= 64 * SESSION_DEN
}

/// Rounding a rectangle to the fixed session denominator.
pub open spec fn quant_spec(q: QBounds) -> QBounds {
    QBounds {
        x0: tdiv(q.x0 * SESSION_DEN, q.den),
        x1: tdiv(q.x1 * SESSION_DEN, q.den),
        y0: tdiv(q.y0 * SESSION_DEN, q.den),
        y1: tdiv(q.y1 * SESSION_DEN, q.den),
        den: SESSION_DEN as int,
    }
}

/// Wheel direction to zoom fraction: scroll up doubles, scroll down
/// halves; no intermediate magnitudes.
pub open spec fn wheel_num(zoom_in: bool) -> int {
    if zoom_in {
        2
    } else {
        1
    }
}

pub open spec fn wheel_den(zoom_in: bool) -> int {
    if zoom_in {
        1
    } else {
        2
    }
}

/// The prospective viewport a wheel event at the given cursor computes.
pub open spec fn prospective(q: QBounds, w: int, h: int, cx: int, cy: int, zin: bool) -> QBounds {
    quant_spec(scale_spec(q, w, h, cx, cy, wheel_num(zin), wheel_den(zin)))
}

pub open spec fn bounds_of(t: QBounds) -> Bounds {
    Bounds {
        x0n: t.x0 as i64,
        x1n: t.x1 as i64,
        y0n: t.y0 as i64,
        y1n: t.y1 as i64,
        den: t.den as i64,
    }
}

impl Session {
    pub open spec fn wf(self) -> bool {
        &&& 2 <= self.width <= 4096
        &&& 2 <= self.height <= 4096
        &&& session_ok(self.bounds.q())
        &&& match self.pending {
            Some(p) => session_ok(p.target.q()),
            None => true,
        }
    }
}

/// The session state after a wheel event: the committed viewport is
/// untouched; the pending render is replaced by one for the prospective
/// viewport (or cleared, when the prospective viewport is not
/// representable), with a fresh timer due one debounce window from now.
pub open spec fn wheel_state(s: Session, now_ms: u64, cx: u32, cy: u32, zin: bool) -> Session {
    let t = prospective(s.bounds.q(), s.width as int, s.height as int, cx as int, cy as int, zin);
    if session_ok(t) {
        Session {
            pending: Some(
                Pending {
                    timer: s.next_timer,
                    deadline_ms: (now_ms + DEBOUNCE_MS) as u64,
                    target: bounds_of(t),
                },
            ),
            next_timer: (s.next_timer + 1) as u64,
            ..s
        }
    } else {
        Session { pending: None, ..s }
    }
}

/// The session state after the debounce timer `timer` fires: only the
/// timer of the one outstanding pending render commits its target; a
/// stale timer changes nothing.
pub open spec fn fire_state(s: Session, timer: u64) -> Session {
    match s.pending {
        Some(p) => if p.timer == timer {
            Session { bounds: p.target, pending: None, ..s }
        } else {
            s
        },
        None => s,
    }
}

/// The viewport that will be shown once the session settles.
pub open spec fn settled_bounds(s: Session) -> Bounds {
    match s.pending {
        Some(p) => p.target,
        None => s.bounds,
    }
}

/// Computes the prospective quantized viewport of a wheel zoom, or
/// `None` exactly when the quantized rectangle would be empty or leave
/// the session's representable window.
fn scale_quant(b: &Bounds, w: u32, h: u32, cx: u32, cy: u32, zn: u32, zd: u32) -> (r: Option<
    Bounds,
>)
    requires
        b.wf(),
        -0x8000_0000_0000 <= b.x0n <= 0x8000_0000_0000,
        -0x8000_0000_0000 <= b.x1n <= 0x8000_0000_0000,
        -0x8000_0000_0000 <= b.y0n <= 0x8000_0000_0000,
        -0x8000_0000_0000 <= b.y1n <= 0x8000_0000_0000,
        1 <= b.den <= 0x200_0000_0000,
        2 <= w <= 4096,
        2 <= h <= 4096,
        cx <= w,
        cy <= h,
        1 <= zn <= 2,
        1 <= zd <= 2,
    ensures
        ({
            let t = quant_spec(
                scale_spec(b.q(), w as int, h as int, cx as int, cy as int, zn as int, zd as int),
            );
            match r {
                Some(nb) => session_ok(t) && nb.q() == t,
                None => !session_ok(t),
            }
        }),
{
    let x0: i128 = b.x0n as i128;
    let x1: i128 = b.x1n as i128;
    let y0: i128 = b.y0n as i128;
    let y1: i128 = b.y1n as i128;
    let d: i128 = b.den as i128;
    let wi: i128 = w as i128;
    let hi: i128 = h as i128;
    let cxi: i128 = cx as i128;
    let cyi: i128 = cy as i128;
    let zni: i128 = zn as i128;
    let zdi: i128 = zd as i128;
    let xr: i128 = x1 - x0;
    let yr: i128 = y1 - y0;
    proof {
        crate::viewport::lemma_abs_bound(x0 as int, wi as int, 0x8000_0000_0000, 4096);
        crate::viewport::lemma_abs_bound(cxi as int, xr as int, 4096, 0x1_0000_0000_0000);
        crate::viewport::lemma_abs_bound(y0 as int, hi as int, 0x8000_0000_0000, 4096);
        crate::viewport::lemma_abs_bound(cyi as int, yr as int, 4096, 0x1_0000_0000_0000);
        crate::viewport::lemma_abs_bound((wi - cxi) as int, xr as int, 4096, 0x1_0000_0000_0000);
        crate::viewport::lemma_abs_bound((hi - cyi) as int, yr as int, 4096, 0x1_0000_0000_0000);
    }
    let ax: i128 = x0 * wi + cxi * xr;
    let ay: i128 = y0 * hi + cyi * yr;
    let cxr: i128 = cxi * xr;
    let wxr: i128 = (wi - cxi) * xr;
    let cyr: i128 = cyi * yr;
    let hyr: i128 = (hi - cyi) * yr;
    proof {
        crate::viewport::lemma_abs_bound(ax as int, zni as int, 0x2000_0000_0000_0000, 2);
        crate::viewport::lemma_abs_bound(ay as int, zni as int, 0x2000_0000_0000_0000, 2);
        crate::viewport::lemma_abs_bound(cxr as int, zdi as int, 0x1000_0000_0000_0000, 2);
        crate::viewport::lemma_abs_bound(wxr as int, zdi as int, 0x1000_0000_0000_0000, 2);
        crate::viewport::lemma_abs_bound(cyr as int, zdi as int, 0x1000_0000_0000_0000, 2);
        crate::viewport::lemma_abs_bound(hyr as int, zdi as int, 0x1000_0000_0000_0000, 2);
    }
    let nx0: i128 = ax * zni - cxr * zdi;
    let nx1: i128 = ax * zni + wxr * zdi;
    let ny0: i128 = ay * zni - cyr * zdi;
    let ny1: i128 = ay * zni + hyr * zdi;
    proof {
        crate::viewport::lemma_abs_bound((2 * d) as int, wi as int, 0x400_0000_0000, 4096);
        crate::viewport::lemma_abs_bound((2 * d * wi) as int, hi as int, 0x400_0000_0000_0000,
            4096);
        crate::viewport::lemma_abs_bound(
            (2 * d * wi * hi) as int, zni as int, 0x400_0000_0000_0000_0000, 2);
    }
    let dd: i128 = 2 * d * wi * hi * zni;
    let rx0: i128;
    let rx1: i128;
    let ry0: i128;
    let ry1: i128;
    if w > h {
        let sx: i128 = nx0 + nx1;
        proof {
            crate::viewport::lemma_abs_bound(sx as int, hi as int, 0x1_0000_0000_0000_0000, 4096);
            crate::viewport::lemma_abs_bound(yr as int, zdi as int, 0x1_0000_0000_0000, 2);
            crate::viewport::lemma_abs_bound(
                (yr * zdi) as int, wi as int, 0x2_0000_0000_0000, 4096);
            crate::viewport::lemma_abs_bound(
                (yr * zdi * wi) as int, wi as int, 0x2000_0000_0000_0000, 4096);
            crate::viewport::lemma_abs_bound(
                (2 * wi) as int, ny0 as int, 8192, 0x8000_0000_0000_0000);
            crate::viewport::lemma_abs_bound(
                (2 * wi) as int, ny1 as int, 8192, 0x8000_0000_0000_0000);
        }
        let corr: i128 = yr * zdi * wi * wi;
        rx0 = sx * hi - corr;
        rx1 = sx * hi + corr;
        ry0 = 2 * wi * ny0;
        ry1 = 2 * wi * ny1;
    } else {
        let sy: i128 = ny0 + ny1;
        proof {
            crate::viewport::lemma_abs_bound(sy as int, wi as int, 0x1_0000_0000_0000_0000, 4096);
            crate::viewport::lemma_abs_bound(xr as int, zdi as int, 0x1_0000_0000_0000, 2);
            crate::viewport::lemma_abs_bound(
                (xr * zdi) as int, hi as int, 0x2_0000_0000_0000, 4096);
            crate::viewport::lemma_abs_bound(
                (xr * zdi * hi) as int, hi as int, 0x2000_0000_0000_0000, 4096);
            crate::viewport::lemma_abs_bound(
                (2 * hi) as int, nx0 as int, 8192, 0x8000_0000_0000_0000);
            crate::viewport::lemma_abs_bound(
                (2 * hi) as int, nx1 as int, 8192, 0x8000_0000_0000_0000);
        }
        let corr: i128 = xr * zdi * hi * hi;
        ry0 = sy * wi - corr;
        ry1 = sy * wi + corr;
        rx0 = 2 * hi * nx0;
        rx1 = 2 * hi * nx1;
    }
    proof {
        let big = 0x8000_0000_0000_0000_0000int;
        crate::viewport::lemma_abs_bound(rx0 as int, SESSION_DEN as int, big, 0x100_0000_0000);
        crate::viewport::lemma_abs_bound(rx1 as int, SESSION_DEN as int, big, 0x100_0000_0000);
        crate::viewport::lemma_abs_bound(ry0 as int, SESSION_DEN as int, big, 0x100_0000_0000);
        crate::viewport::lemma_abs_bound(ry1 as int, SESSION_DEN as int, big, 0x100_0000_0000);
        assert(dd > 0) by (nonlinear_arith)
            requires
                dd == 2 * (d as int) * (wi as int) * (hi as int) * (zni as int),
                d as int >= 1,
                wi as int >= 1,
                hi as int >= 1,
                zni as int >= 1;
    }
    let qx0: i128 = crate::escape::tdiv_i128(rx0 * (SESSION_DEN as i128), dd);
    let qx1: i128 = crate::escape::tdiv_i128(rx1 * (SESSION_DEN as i128), dd);
    let qy0: i128 = crate::escape::tdiv_i128(ry0 * (SESSION_DEN as i128), dd);
    let qy1: i128 = crate::escape::tdiv_i128(ry1 * (SESSION_DEN as i128), dd);
    let lim: i128 = 64 * (SESSION_DEN as i128);
    if qx0 < qx1 && qy0 < qy1 && -lim <= qx0 && qx0 <= lim && -lim <= qx1 && qx1 <= lim && -lim
        <= qy0 && qy0 <= lim && -lim <= qy1 && qy1 <= lim {
        Some(
            Bounds {
                x0n: qx0 as i64,
                x1n: qx1 as i64,
                y0n: qy0 as i64,
                y1n: qy1 as i64,
                den: SESSION_DEN,
            },
        )
    } else {
        None
    }
}

impl Session {
    /// Opens a session on a canvas: the default region, aspect-corrected
    /// for the actual canvas dimensions, quantized. `None` exactly when
    /// that rectangle leaves the session's representable window (an
    /// extreme canvas aspect ratio).
    pub fn new(width: u32, height: u32) -> (r: Option<Session>)
        requires
            2 <= width <= 4096,
            2 <= height <= 4096,
        ensures
            ({
                let t = quant_spec(
                    scale_spec(
                        Bounds { x0n: -2i64, x1n: 2i64, y0n: -2i64, y1n: 2i64, den: 1i64 }.q(),
                        width as int, height as int, 0, 0, 1, 1),
                );
                match r {
                    Some(s) => session_ok(t) && s.wf() && s.bounds.q() == t && s.width == width
                        && s.height == height && s.pending is None && s.next_timer == 0,
                    None => !session_ok(t),
                }
            }),
    {
        let base = Bounds::new_default();
        match scale_quant(&base, width, height, 0, 0, 1, 1) {
            Some(b) => Some(
                Session { bounds: b, width, height, pending: None, next_timer: 0 },
            ),
            None => None,
        }
    }

    /// Handles one wheel event: computes the prospective viewport from
    /// the committed one, cancels the superseded timer, and schedules a
    /// fresh debounce timer. The committed viewport is not touched —
    /// only the timer callback commits.
    pub fn on_wheel(&mut self, now_ms: u64, cursor_x: u32, cursor_y: u32, zoom_in: bool) -> (r:
        ZoomEffect)
        requires
            old(self).wf(),
            cursor_x <= old(self).width,
            cursor_y <= old(self).height,
            old(self).next_timer < u64::MAX,
            now_ms <= u64::MAX - DEBOUNCE_MS,
        ensures
            *final(self) == wheel_state(*old(self), now_ms, cursor_x, cursor_y, zoom_in),
            final(self).wf(),
            r.cancel == (match old(self).pending {
                Some(p) => Some(p.timer),
                None => None::<u64>,
            }),
            r.schedule == (match final(self).pending {
                Some(p) => Some(p.timer),
                None => None::<u64>,
            }),
            r.deadline_ms == now_ms + DEBOUNCE_MS,
            r.zoom_in == zoom_in,
            r.cursor_x == cursor_x,
            r.cursor_y == cursor_y,
    {
        let cancel: Option<u64> = match self.pending {
            Some(p) => Some(p.timer),
            None => None,
        };
        let zn: u32 = if zoom_in {
            2
        } else {
            1
        };
        let zd: u32 = if zoom_in {
            1
        } else {
            2
        };
        let schedule: Option<u64>;
        match scale_quant(&self.bounds, self.width, self.height, cursor_x, cursor_y, zn, zd) {
            Some(target) => {
                let timer = self.next_timer;
                self.pending = Some(
                    Pending { timer, deadline_ms: now_ms + DEBOUNCE_MS, target },
                );
                self.next_timer = timer + 1;
                schedule = Some(timer);
            },
            None => {
                self.pending = None;
                schedule = None;
            },
        }
        proof {
            let t = prospective(
                old(self).bounds.q(), old(self).width as int, old(self).height as int,
                cursor_x as int, cursor_y as int, zoom_in);
            if session_ok(t) {
                assert(bounds_of(t) == self.pending.unwrap().target);
            }
        }
        ZoomEffect {
            cancel,
            schedule,
            deadline_ms: now_ms + DEBOUNCE_MS,
            zoom_in,
            cursor_x,
            cursor_y,
        }
    }

    /// Handles the debounce timer firing: commits the prospective
    /// viewport and asks for a render, if and only if the timer is the
    /// one outstanding pending render's; a superseded (stale) timer
    /// changes nothing and triggers nothing.
    pub fn on_timer(&mut self, timer: u64) -> (r: Option<RenderCmd>)
        requires
            old(self).wf(),
        ensures
            *final(self) == fire_state(*old(self), timer),
            final(self).wf(),
            r == (match old(self).pending {
                Some(p) => if p.timer == timer {
                    Some(
                        RenderCmd {
                            bounds: p.target,
                            width: old(self).width,
                            height: old(self).height,
                        },
                    )
                } else {
                    None::<RenderCmd>
                },
                None => None::<RenderCmd>,
            }),
    {
        match self.pending {
            Some(p) => {
                if p.timer == timer {
                    self.bounds = p.target;
                    self.pending = None;
                    Some(RenderCmd { bounds: p.target, width: self.width, height: self.height })
                } else {
                    None
                }
            },
            None => None,
        }
    }
}

/// Debounce law: of several wheel events within one debounce window,
/// only the last ever reaches the committed viewport — the settled
/// viewport after two back-to-back wheel events is the settled viewport
/// after the second alone.
pub proof fn lemma_debounce_supersedes(
    s: Session,
    now1: u64,
    cx1: u32,
    cy1: u32,
    z1: bool,
    now2: u64,
    cx2: u32,
    cy2: u32,
    z2: bool,
)
    requires
        now1 <= u64::MAX - DEBOUNCE_MS,
        now2 <= u64::MAX - DEBOUNCE_MS,
        s.next_timer < u64::MAX,
    ensures
        settled_bounds(wheel_state(wheel_state(s, now1, cx1, cy1, z1), now2, cx2, cy2, z2))
            == settled_bounds(wheel_state(s, now2, cx2, cy2, z2)),
        wheel_state(wheel_state(s, now1, cx1, cy1, z1), now2, cx2, cy2, z2).bounds == s.bounds,
{
}

} // verus!
