//! Application defaults and per-window bookkeeping that is independent of
//! the windowing toolkit.

use crate::text::{decimal, decimal_string};
use vstd::prelude::*;
use vstd::string::*;

verus! {

/// Tunable defaults for the application.
#[derive(Debug, Clone, Copy)]
pub struct AppConfig {
    /// Default rows per page.
    pub default_page_size: u64,
    /// Upper bound on the on-disk cache before least-recently-used eviction.
    pub cache_cap_bytes: u64,
}

impl Default for AppConfig {
    fn default() -> (r: Self)
        ensures
            r.default_page_size == 2000,
            r.cache_cap_bytes == 8 * 1024 * 1024 * 1024,
    {
        AppConfig { default_page_size: 2000, cache_cap_bytes: 8 * 1024 * 1024 * 1024 }
    }
}

/// The smallest page size a request may ask for.
pub const MIN_PAGE_SIZE: u64 = 1;

/// The largest page size a request may ask for.
pub const MAX_PAGE_SIZE: u64 = 100_000;

/// The page size used for a request: the requested size, or the default
/// when none was given, clamped to `[1, 100000]`.
pub open spec fn page_size_for(default_page_size: u64, requested: Option<u64>) -> u64 {
    let size = match requested {
        Some(s) => s,
        None => default_page_size,
    };
    if size < 1 {
        1
    } else if size > 100_000 {
        100_000
    } else {
        size
    }
}

/// Normalizes a requested page size against the configuration.
pub fn normalized_page_size(config: &AppConfig, requested: Option<u64>) -> (r: u64)
    ensures
        r == page_size_for(config.default_page_size, requested),
        MIN_PAGE_SIZE <= r <= MAX_PAGE_SIZE,
{
    let size = match requested {
        Some(s) => s,
        None => config.default_page_size,
    };
    if size < MIN_PAGE_SIZE {
        MIN_PAGE_SIZE
    } else if size > MAX_PAGE_SIZE {
        MAX_PAGE_SIZE
    } else {
        size
    }
}

/// The label of the `n`-th window opened at runtime.
pub open spec fn window_label_text(n: u64) -> Seq<char> {
    "win-"@ + decimal(n as nat)
}

/// Hands out unique labels (`win-1`, `win-2`, ...) for windows opened at
/// runtime.
pub struct WindowLabels {
    next: u64,
}

impl View for WindowLabels {
    type V = u64;

    closed spec fn view(&self) -> u64 {
        self.next
    }
}

impl WindowLabels {
    /// A counter whose first label is `win-1`.
    pub fn new() -> (r: Self)
        ensures
            r@ == 1,
    {
        WindowLabels { next: 1 }
    }

    /// The next label; the counter advances (wrapping like an atomic counter).
    pub fn next_label(&mut self) -> (r: String)
        ensures
            r@ == window_label_text(old(self)@),
            final(self)@ == if old(self)@ == u64::MAX {
                0
            } else {
                (old(self)@ + 1) as u64
            },
    {
        let n = self.next;
        self.next = if n == u64::MAX { 0 } else { n + 1 };
        String::from_str("win-").concat(decimal_string(n as u128).as_str())
    }
}

/// Two labels handed out for different counter values differ.
pub proof fn law_window_labels_distinct(a: u64, b: u64)
    requires
        a != b,
    ensures
        window_label_text(a) != window_label_text(b),
{
    reveal_strlit("win-");
    if window_label_text(a) == window_label_text(b) {
        assert(decimal(a as nat) =~= window_label_text(a).subrange(4, window_label_text(a).len() as int));
        assert(decimal(b as nat) =~= window_label_text(b).subrange(4, window_label_text(b).len() as int));
        crate::text::lemma_decimal_injective(a as nat, b as nat);
    }
}

/// The label counter after `calls` labels were handed out by a fresh
/// counter.
pub open spec fn counter_after(calls: nat) -> u64
    decreases calls,
{
    if calls == 0 {
        1
    } else {
        let c = counter_after((calls - 1) as nat);
        if c == u64::MAX {
            0
        } else {
            (c + 1) as u64
        }
    }
}

/// The n-th label a fresh counter hands out is `win-n` (until the counter
/// wraps around).
pub proof fn law_nth_label(n: nat)
    requires
        1 <= n < u64::MAX,
    ensures
        counter_after((n - 1) as nat) == n,
        window_label_text(counter_after((n - 1) as nat)) == "win-"@ + decimal(n),
    decreases n,
{
    if n > 1 {
        law_nth_label((n - 1) as nat);
    }
}

} // verus!
