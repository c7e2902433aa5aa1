//! Nozzle-change operations and the text line each one is written as.

use vstd::prelude::*;

use crate::machine::{Head, NozzleStation};

verus! {

/// A nozzle swap on one head: before the component at `before_component`
/// (1-based), the head parks its nozzle in `drop_station` and takes the one
/// in `pickup_station`.
#[derive(Clone, Copy, Debug, PartialEq, Eq, Structural)]
pub struct NozzleChange {
    pub enabled: bool,
    pub before_component: usize,
    pub head: Head,
    pub drop_station: NozzleStation,
    pub pickup_station: NozzleStation,
}

/// The disabled entry that fills an unused line of the header.
pub open spec fn idle_change() -> NozzleChange {
    NozzleChange {
        enabled: false,
        before_component: 1,
        head: Head::Head1,
        drop_station: NozzleStation::Station3,
        pickup_station: NozzleStation::Station3,
    }
}

impl Default for NozzleChange {
    fn default() -> (r: NozzleChange)
        ensures
            r == idle_change(),
    {
        NozzleChange {
            enabled: false,
            before_component: 1,
            head: Head::Head1,
            drop_station: NozzleStation::Station3,
            pickup_station: NozzleStation::Station3,
        }
    }
}

/// The character of a decimal digit.
pub open spec fn digit_char(d: nat) -> char {
    if d == 0 {
        '0'
    } else if d == 1 {
        '1'
    } else if d == 2 {
        '2'
    } else if d == 3 {
        '3'
    } else if d == 4 {
        '4'
    } else if d == 5 {
        '5'
    } else if d == 6 {
        '6'
    } else if d == 7 {
        '7'
    } else if d == 8 {
        '8'
    } else {
        '9'
    }
}

/// A number written in decimal, most significant digit first, without
/// leading zeros.
pub open spec fn decimal(n: nat) -> Seq<char>
    decreases n,
{
    if n < 10 {
        seq![digit_char(n)]
    } else {
        decimal(n / 10) + seq![digit_char(n % 10)]
    }
}

pub open spec fn head_text(h: Head) -> Seq<char> {
    match h {
        Head::Head1 => "Head1"@,
        Head::Head2 => "Head2"@,
    }
}

pub open spec fn station_text(s: NozzleStation) -> Seq<char> {
    match s {
        NozzleStation::Station1 => "Station1"@,
        NozzleStation::Station2 => "Station2"@,
        NozzleStation::Station3 => "Station3"@,
    }
}

/// The header line of a nozzle change, e.g.
/// `NozzleChange,ON,BeforeComponent,3,Head1,Drop,Station3,PickUp,Station1,`.
pub open spec fn change_text(c: NozzleChange) -> Seq<char> {
    "NozzleChange,"@ + (if c.enabled {
        "ON"@
    } else {
        "OFF"@
    }) + ",BeforeComponent,"@ + decimal(c.before_component as nat) + ","@ + head_text(c.head)
        + ",Drop,"@ + station_text(c.drop_station) + ",PickUp,"@ + station_text(
        c.pickup_station,
    ) + ","@
}

fn digit_str(d: usize) -> (r: &'static str)
    requires
        d < 10,
    ensures
        r@ == seq![digit_char(d as nat)],
{
    proof {
        reveal_strlit("0");
        reveal_strlit("1");
        reveal_strlit("2");
        reveal_strlit("3");
        reveal_strlit("4");
        reveal_strlit("5");
        reveal_strlit("6");
        reveal_strlit("7");
        reveal_strlit("8");
        reveal_strlit("9");
    }
    if d == 0 {
        "0"
    } else if d == 1 {
        "1"
    } else if d == 2 {
        "2"
    } else if d == 3 {
        "3"
    } else if d == 4 {
        "4"
    } else if d == 5 {
        "5"
    } else if d == 6 {
        "6"
    } else if d == 7 {
        "7"
    } else if d == 8 {
        "8"
    } else {
        "9"
    }
}

fn append_decimal(s: &mut String, n: usize)
    ensures
        final(s)@ == old(s)@ + decimal(n as nat),
    decreases n,
{
    if n >= 10 {
        append_decimal(s, n / 10);
    }
    s.append(digit_str(n % 10));
    proof {
        assert(old(s)@ + decimal(n as nat) =~= old(s)@ + (if n < 10 {
            seq![digit_char(n as nat)]
        } else {
            decimal((n / 10) as nat) + seq![digit_char((n % 10) as nat)]
        }));
    }
}

fn head_str(h: Head) -> (r: &'static str)
    ensures
        r@ == head_text(h),
{
    match h {
        Head::Head1 => "Head1",
        Head::Head2 => "Head2",
    }
}

fn station_str(s: NozzleStation) -> (r: &'static str)
    ensures
        r@ == station_text(s),
{
    match s {
        NozzleStation::Station1 => "Station1",
        NozzleStation::Station2 => "Station2",
        NozzleStation::Station3 => "Station3",
    }
}

impl NozzleChange {
    /// The header line for this change.
    pub fn as_string(&self) -> (r: String)
        ensures
            r@ == change_text(*self),
    {
        let mut s = String::from_str("NozzleChange,");
        if self.enabled {
            s.append("ON");
        } else {
            s.append("OFF");
        }
        s.append(",BeforeComponent,");
        append_decimal(&mut s, self.before_component);
        s.append(",");
        s.append(head_str(self.head));
        s.append(",Drop,");
        s.append(station_str(self.drop_station));
        s.append(",PickUp,");
        s.append(station_str(self.pickup_station));
        s.append(",");
        s
    }
}

/// The four header entries: the given changes first, then disabled ones.
pub open spec fn header_entries(changes: Seq<NozzleChange>) -> Seq<NozzleChange> {
    Seq::new(4, |i: int| if i < changes.len() { changes[i] } else { idle_change() })
}

/// The machine's header always holds exactly four change lines: the real
/// changes in order, then disabled placeholders.
pub fn header_lines(changes: &Vec<NozzleChange>) -> (r: Vec<String>)
    ensures
        r@.len() == 4,
        forall|i: int| 0 <= i < 4 ==> #[trigger] r@[i]@ == change_text(header_entries(changes@)[i]),
{
    let mut r: Vec<String> = Vec::new();
    let mut i: usize = 0;
    while i < 4
        invariant
            i <= 4,
            r@.len() == i,
            forall|j: int| 0 <= j < i ==> #[trigger] r@[j]@ == change_text(header_entries(changes@)[j]),
        decreases 4 - i,
    {
        let entry = if i < changes.len() {
            changes[i]
        } else {
            NozzleChange::default()
        };
        r.push(entry.as_string());
        i += 1;
    }
    r
}

} // verus!
