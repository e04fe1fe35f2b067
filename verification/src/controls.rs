//! Keyboard controls of the monitor: quitting and cycling the disk and
//! network interface on display.
use vstd::prelude::*;

verus! {

/// What the keyboard has selected, and whether the monitor keeps running.
pub struct Controls {
    pub running: bool,
    pub selected_disk: usize,
    pub selected_interface: usize,
}

/// The selection after cycling forward once through `count` entries.
pub open spec fn cycle(selected: nat, count: nat) -> nat {
    if count == 0 { selected } else { (selected + 1) % count }
}

/// The selection after cycling forward `times` times.
pub open spec fn cycle_times(selected: nat, count: nat, times: nat) -> nat
    decreases times,
{
    if times == 0 { selected } else { cycle(cycle_times(selected, count, (times - 1) as nat), count) }
}

pub open spec fn is_quit_key(key: u8) -> bool {
    key == 0x71 || key == 0x51 || key == 3
}

pub open spec fn is_disk_key(key: u8) -> bool {
    key == 0x64 || key == 0x44
}

pub open spec fn is_network_key(key: u8) -> bool {
    key == 0x6e || key == 0x4e
}

impl Controls {
    /// Running, with the first disk and interface selected.
    pub fn new() -> (c: Self)
        ensures
            c.running,
            c.selected_disk == 0,
            c.selected_interface == 0,
    {
        Controls { running: true, selected_disk: 0, selected_interface: 0 }
    }

    /// Handles one key: `q`, `Q` or Ctrl+C stops the monitor, `d`/`D` selects
    /// the next of `disk_count` disks, `n`/`N` the next of `interface_count`
    /// interfaces (wrapping around, and only when there are any); other keys
    /// change nothing.
    pub fn handle_key(&mut self, key: u8, disk_count: usize, interface_count: usize)
        ensures
            final(self).running == (old(self).running && !is_quit_key(key)),
            final(self).selected_disk == (if is_disk_key(key) {
                cycle(old(self).selected_disk as nat, disk_count as nat)
            } else {
                old(self).selected_disk as nat
            }),
            final(self).selected_interface == (if is_network_key(key) {
                cycle(old(self).selected_interface as nat, interface_count as nat)
            } else {
                old(self).selected_interface as nat
            }),
    {
        if key == 0x71 || key == 0x51 || key == 3 {
            self.running = false;
        } else if key == 0x64 || key == 0x44 {
            if disk_count > 0 {
                self.selected_disk = next_index(self.selected_disk, disk_count);
            }
        } else if key == 0x6e || key == 0x4e {
            if interface_count > 0 {
                self.selected_interface = next_index(self.selected_interface, interface_count);
            }
        }
    }
}

/// `(n + 1) % count` from `n % count`.
proof fn lemma_next_mod(n: int, count: int)
    requires
        n >= 0,
        count > 0,
    ensures
        (n + 1) % count == if n % count + 1 == count { 0 } else { n % count + 1 },
{
    let q = n / count;
    let m = n % count;
    vstd::arithmetic::div_mod::lemma_fundamental_div_mod(n, count);
    vstd::arithmetic::div_mod::lemma_mod_bound(n, count);
    assert(n == q * count + m) by (nonlinear_arith)
        requires
            n == count * q + m,
    ;
    if m + 1 == count {
        assert(n + 1 == (q + 1) * count + 0) by (nonlinear_arith)
            requires
                n == q * count + m,
                m + 1 == count,
        ;
        vstd::arithmetic::div_mod::lemma_fundamental_div_mod_converse_mod(n + 1, count, q + 1, 0);
    } else {
        vstd::arithmetic::div_mod::lemma_fundamental_div_mod_converse_mod(n + 1, count, q, m + 1);
    }
}

/// `(selected + 1) % count`, computed without overflow.
fn next_index(selected: usize, count: usize) -> (r: usize)
    requires
        count > 0,
    ensures
        r == (selected + 1) % (count as int),
{
    let m = selected % count;
    proof { lemma_next_mod(selected as int, count as int); }
    if m + 1 == count {
        0
    } else {
        m + 1
    }
}

/// The keys: exactly `q`, `Q` and Ctrl+C (byte 3) stop the monitor, exactly
/// `d` and `D` cycle the disk, exactly `n` and `N` cycle the interface, no
/// key does two of these, and every other key (such as Esc, byte 0x1b)
/// does none.
pub proof fn lemma_key_meanings(key: u8)
    ensures
        is_quit_key(key) <==> (key == 'q' as u8 || key == 'Q' as u8 || key == 3),
        is_disk_key(key) <==> (key == 'd' as u8 || key == 'D' as u8),
        is_network_key(key) <==> (key == 'n' as u8 || key == 'N' as u8),
        !(is_quit_key(key) && is_disk_key(key)),
        !(is_quit_key(key) && is_network_key(key)),
        !(is_disk_key(key) && is_network_key(key)),
        !is_quit_key(0x1b) && !is_disk_key(0x1b) && !is_network_key(0x1b),
{
}

/// After cycling, the selection names one of the entries.
pub proof fn lemma_cycle_in_range(selected: nat, count: nat)
    requires
        count > 0,
    ensures
        cycle(selected, count) < count,
{
}

/// Cycling through `count` entries `count` times comes back to where it
/// started.
pub proof fn lemma_cycle_returns(selected: nat, count: nat)
    requires
        selected < count,
    ensures
        cycle_times(selected, count, count) == selected,
{
    lemma_cycle_steps(selected, count, count);
    vstd::arithmetic::div_mod::lemma_fundamental_div_mod_converse_mod(
        (selected + count) as int,
        count as int,
        1,
        selected as int,
    );
}

proof fn lemma_cycle_steps(selected: nat, count: nat, times: nat)
    requires
        selected < count,
    ensures
        cycle_times(selected, count, times) == (selected + times) % count,
    decreases times,
{
    if times > 0 {
        lemma_cycle_steps(selected, count, (times - 1) as nat);
        let prev = (selected + times - 1) as int;
        lemma_next_mod(prev, count as int);
        vstd::arithmetic::div_mod::lemma_mod_bound(prev, count as int);
        if prev % (count as int) + 1 != count as int {
            vstd::arithmetic::div_mod::lemma_small_mod((prev % (count as int) + 1) as nat, count);
        } else {
            vstd::arithmetic::div_mod::lemma_mod_self_0(count as int);
        }
    } else {
        vstd::arithmetic::div_mod::lemma_small_mod(selected, count);
    }
}

} // verus!
