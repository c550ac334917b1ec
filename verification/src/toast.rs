//! Small corner "toast" notifications: they stack, and each goes away by itself
//! after a while or when it is closed.

use vstd::prelude::*;

use crate::library::views;
use crate::time::Duration;

verus! {

/// How long a toast stays, in milliseconds.
pub const TTL_MILLIS: u64 = 4000;

/// What a toast is about.
#[derive(Debug, Clone, Copy, PartialEq, Eq, Structural)]
pub enum Level {
    Success,
    Info,
    Warning,
    Error,
}

impl Level {
    /// The colour of a toast: red, green and blue.
    pub open spec fn colors(self) -> (u8, u8, u8) {
        match self {
            Level::Success => (0x46, 0xB4, 0x6E),
            Level::Info => (0x4C, 0x8B, 0xF5),
            Level::Warning => (0xE0, 0xA0, 0x30),
            Level::Error => (0xDA, 0x54, 0x4F),
        }
    }

    /// The colour of a toast: red, green and blue.
    pub fn color(self) -> (r: (u8, u8, u8))
        ensures
            r == self.colors(),
    {
        match self {
            Level::Success => (0x46, 0xB4, 0x6E),
            Level::Info => (0x4C, 0x8B, 0xF5),
            Level::Warning => (0xE0, 0xA0, 0x30),
            Level::Error => (0xDA, 0x54, 0x4F),
        }
    }
}

/// One notification.
#[derive(Debug)]
pub struct Toast {
    pub text: String,
    pub level: Level,
    /// When it came up, on the player's clock.
    pub created: Duration,
}

/// What a [`Toast`] holds.
#[verifier::ext_equal]
pub struct ToastView {
    pub text: Seq<char>,
    pub level: Level,
    pub created: nat,
}

impl View for Toast {
    type V = ToastView;

    open spec fn view(&self) -> ToastView {
        ToastView { text: self.text@, level: self.level, created: self.created@ }
    }
}

/// How long a toast has been up.
pub open spec fn age_of(t: ToastView, now: nat) -> nat {
    if now >= t.created {
        (now - t.created) as nat
    } else {
        0
    }
}

/// Whether a toast is still to be shown.
pub open spec fn is_fresh(t: ToastView, now: nat) -> bool {
    age_of(t, now) < TTL_MILLIS * 1_000_000
}

/// The notifications that are up.
#[derive(Debug)]
pub struct Toasts {
    pub items: Vec<Toast>,
}

impl View for Toasts {
    type V = Seq<ToastView>;

    open spec fn view(&self) -> Seq<ToastView> {
        views(self.items@)
    }
}

impl Default for Toasts {
    fn default() -> (r: Toasts)
        ensures
            r@ == Seq::<ToastView>::empty(),
    {
        let r = Toasts { items: Vec::new() };
        assert(r@ =~= Seq::<ToastView>::empty());
        r
    }
}

impl Toasts {
    fn push(&mut self, level: Level, text: &str, now: Duration)
        ensures
            final(self)@ == old(self)@.push(ToastView { text: text@, level, created: now@ }),
    {
        let ghost before = self@;
        let toast = Toast { text: text.to_owned(), level, created: now };
        self.items.push(toast);
        assert(self@ =~= before.push(toast@));
    }

    /// Show that something worked.
    pub fn success(&mut self, text: &str, now: Duration)
        ensures
            final(self)@ == old(self)@.push(ToastView { text: text@, level: Level::Success, created: now@ }),
    {
        self.push(Level::Success, text, now);
    }

    /// Show something worth knowing.
    pub fn info(&mut self, text: &str, now: Duration)
        ensures
            final(self)@ == old(self)@.push(ToastView { text: text@, level: Level::Info, created: now@ }),
    {
        self.push(Level::Info, text, now);
    }

    /// Show something to be careful about.
    pub fn warning(&mut self, text: &str, now: Duration)
        ensures
            final(self)@ == old(self)@.push(ToastView { text: text@, level: Level::Warning, created: now@ }),
    {
        self.push(Level::Warning, text, now);
    }

    /// Show that something failed.
    pub fn error(&mut self, text: &str, now: Duration)
        ensures
            final(self)@ == old(self)@.push(ToastView { text: text@, level: Level::Error, created: now@ }),
    {
        self.push(Level::Error, text, now);
    }

    /// Expire old toasts.
    pub fn expire(&mut self, now: Duration)
        ensures
            final(self)@ == old(self)@.filter(|t: ToastView| is_fresh(t, now@)),
    {
        let fresh = |t: &Toast| -> (r: bool)
            ensures
                r == is_fresh(t@, now@),
        {
            let age: u128 = now.saturating_sub(&t.created).as_nanos();
            age < TTL_MILLIS as u128 * 1_000_000
        };
        crate::library::keep(&mut self.items, fresh, Ghost(|t: ToastView| is_fresh(t, now@)));
    }

    /// Close a toast.
    pub fn close(&mut self, i: usize)
        requires
            i < old(self)@.len(),
        ensures
            final(self)@ == old(self)@.remove(i as int),
    {
        let ghost before = self@;
        self.items.remove(i);
        assert(self@ =~= before.remove(i as int));
    }
}

/// A toast is shown from the moment it comes up, for four seconds and no longer.
pub proof fn toast_stays_a_while(t: ToastView, now: nat)
    requires
        now >= t.created,
    ensures
        is_fresh(t, t.created),
        is_fresh(t, now) <==> now < t.created + 4_000_000_000,
{
}

} // verus!
