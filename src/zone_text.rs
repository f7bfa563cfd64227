//! The text of a generated zone file.

use vstd::prelude::*;

use crate::zone_file::{Zone, ZoneView};

verus! {

/// The decimal digit for `d`, which is below 10.
pub open spec fn digit_char(d: nat) -> char {
    if d == 0 { '0' }
    else if d == 1 { '1' }
    else if d == 2 { '2' }
    else if d == 3 { '3' }
    else if d == 4 { '4' }
    else if d == 5 { '5' }
    else if d == 6 { '6' }
    else if d == 7 { '7' }
    else if d == 8 { '8' }
    else { '9' }
}

/// The decimal notation of `n`, without leading zeros.
pub open spec fn decimal(n: nat) -> Seq<char>
    decreases n,
{
    if n < 10 {
        seq![digit_char(n)]
    } else {
        decimal(n / 10).push(digit_char(n % 10))
    }
}

/// One `$INCLUDE` line for each path, in order.
pub open spec fn includes_text(paths: Seq<Seq<char>>) -> Seq<char>
    decreases paths.len(),
{
    if paths.len() == 0 {
        Seq::empty()
    } else {
        includes_text(paths.drop_last()) + "$INCLUDE "@ + paths.last() + "\n"@
    }
}

/// The text of the zone file for a snapshot: its origin, its default TTL,
/// its SOA record, and an `$INCLUDE` line for each include in order.
pub open spec fn zone_text(z: ZoneView) -> Seq<char> {
    "$ORIGIN "@ + z.name + "\n"@ + "$TTL "@ + z.ttl + "\n"@ + "@ "@ + z.soa.ttl + " IN SOA "@
        + z.soa.mname + " "@ + z.soa.rname + " "@ + decimal(z.soa.serial as nat) + " "@
        + z.soa.refresh + " "@ + z.soa.retry + " "@ + z.soa.expire + " "@ + z.soa.minimum + "\n"@
        + includes_text(z.includes_ordered)
}

fn digit_str(d: u32) -> (r: &'static str)
    requires
        d < 10,
    ensures
        r@ == seq![digit_char(d as nat)],
{
    proof {
        reveal_strlit("0");
        reveal_strlit("1");
        reveal_strlit("2");
        reveal_strlit("3");
        reveal_strlit("4");
        reveal_strlit("5");
        reveal_strlit("6");
        reveal_strlit("7");
        reveal_strlit("8");
        reveal_strlit("9");
    }
    if d == 0 {
        assert("0"@ =~= seq!['0']);
        "0"
    } else if d == 1 {
        assert("1"@ =~= seq!['1']);
        "1"
    } else if d == 2 {
        assert("2"@ =~= seq!['2']);
        "2"
    } else if d == 3 {
        assert("3"@ =~= seq!['3']);
        "3"
    } else if d == 4 {
        assert("4"@ =~= seq!['4']);
        "4"
    } else if d == 5 {
        assert("5"@ =~= seq!['5']);
        "5"
    } else if d == 6 {
        assert("6"@ =~= seq!['6']);
        "6"
    } else if d == 7 {
        assert("7"@ =~= seq!['7']);
        "7"
    } else if d == 8 {
        assert("8"@ =~= seq!['8']);
        "8"
    } else {
        assert("9"@ =~= seq!['9']);
        "9"
    }
}

/// Appends the decimal notation of `n` to `s`.
pub fn push_decimal(s: &mut String, n: u32)
    ensures
        final(s)@ == old(s)@ + decimal(n as nat),
    decreases n,
{
    if n >= 10 {
        push_decimal(s, n / 10);
    }
    s.append(digit_str(n % 10));
    proof {
        if n >= 10 {
            assert(old(s)@ + decimal(n as nat) =~= old(s)@ + decimal((n / 10) as nat) + seq![
                digit_char((n % 10) as nat),
            ]);
        } else {
            assert(decimal(n as nat) == seq![digit_char(n as nat)]);
        }
    }
}

/// The text of the zone file for a snapshot.
pub fn render(zone: &Zone) -> (r: String)
    ensures
        r@ == zone_text(zone@),
{
    let mut s = String::new();
    s.append("$ORIGIN ");
    s.append(zone.name.as_str());
    s.append("\n");
    s.append("$TTL ");
    s.append(zone.ttl.as_str());
    s.append("\n");
    s.append("@ ");
    s.append(zone.soa.ttl.as_str());
    s.append(" IN SOA ");
    s.append(zone.soa.mname.as_str());
    s.append(" ");
    s.append(zone.soa.rname.as_str());
    s.append(" ");
    push_decimal(&mut s, zone.soa.serial);
    s.append(" ");
    s.append(zone.soa.refresh.as_str());
    s.append(" ");
    s.append(zone.soa.retry.as_str());
    s.append(" ");
    s.append(zone.soa.expire.as_str());
    s.append(" ");
    s.append(zone.soa.minimum.as_str());
    s.append("\n");
    let ghost head = s@;
    let mut i: usize = 0;
    while i < zone.includes_ordered.len()
        invariant
            0 <= i <= zone.includes_ordered@.len(),
            s@ == head + includes_text(zone@.includes_ordered.subrange(0, i as int)),
        decreases zone.includes_ordered@.len() - i,
    {
        let ghost before = s@;
        s.append("$INCLUDE ");
        s.append(zone.includes_ordered[i].as_str());
        s.append("\n");
        proof {
            let ps = zone@.includes_ordered;
            assert(ps.subrange(0, i + 1).drop_last() =~= ps.subrange(0, i as int));
            assert(ps.subrange(0, i + 1).last() == zone.includes_ordered@[i as int]@);
            assert(s@ =~= head + includes_text(ps.subrange(0, i + 1)));
        }
        i += 1;
    }
    assert(zone@.includes_ordered.subrange(0, zone@.includes_ordered.len() as int)
        =~= zone@.includes_ordered);
    assert(s@ =~= zone_text(zone@));
    s
}

} // verus!
