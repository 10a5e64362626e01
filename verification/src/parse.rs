//! The duration-string parser.
//!
//! A duration string is one or more groups, each a non-empty run of decimal
//! digits followed by a unit letter: `h` (hours), `m` (minutes) or `s`
//! (seconds). Groups may come in any order. The parser rejects, with
//! [`ParserError`]: an empty input, a unit letter with no digits before it,
//! a unit letter that repeats, any character that is neither a digit nor a
//! unit letter, trailing digits after the last unit letter, and a total that
//! does not fit in `usize`.

use vstd::prelude::*;

use crate::digits::all_digits;
use crate::digits::digit_val;
use crate::digits::digits_val;
use crate::digits::is_digit_char;
use crate::digits::lemma_digits_val_push;

verus! {

/// The error returned when a duration string does not match the grammar.
#[derive(Debug, Clone, Copy)]
pub struct ParserError;

impl ParserError {
    /// One-line description of the failure, as the timer reports it.
    pub fn message(&self) -> (r: String)
        ensures
            r@ == "Error parsing arguments"@,
    {
        "Error parsing arguments".to_owned()
    }
}

/// True of the three unit letters the grammar knows.
pub open spec fn is_unit_char(c: char) -> bool {
    c == 'h' || c == 'm' || c == 's'
}

/// Seconds denoted by one unit letter.
pub open spec fn unit_weight(c: char) -> nat
    recommends
        is_unit_char(c),
{
    if c == 'h' {
        3600
    } else if c == 'm' {
        60
    } else {
        1
    }
}

/// True when some group in `groups` carries the unit `u`.
pub open spec fn has_unit(groups: Seq<(nat, char)>, u: char) -> bool {
    exists|j: int| 0 <= j < groups.len() && (#[trigger] groups[j]).1 == u
}

/// Total seconds denoted by a group list.
pub open spec fn sum_weighted(groups: Seq<(nat, char)>) -> nat
    decreases groups.len(),
{
    if groups.len() == 0 {
        0
    } else {
        sum_weighted(groups.drop_last()) + groups.last().0 * unit_weight(groups.last().1)
    }
}

/// One left-to-right pass over the input: `buf` holds the digits read since
/// the last unit letter, `groups` the groups finished so far. Yields the
/// group list, or `None` where the input breaks the grammar: a unit letter
/// on an empty digit buffer, a unit letter that repeats, a character that is
/// neither digit nor unit, digits left in the buffer at the end, or no group
/// at all.
pub open spec fn scan(cs: Seq<char>, buf: Seq<char>, groups: Seq<(nat, char)>) -> Option<
    Seq<(nat, char)>,
>
    decreases cs.len(),
{
    if cs.len() == 0 {
        if buf.len() == 0 && groups.len() > 0 {
            Some(groups)
        } else {
            None
        }
    } else {
        let c = cs[0];
        if is_digit_char(c) {
            scan(cs.drop_first(), buf.push(c), groups)
        } else if is_unit_char(c) {
            if buf.len() == 0 || has_unit(groups, c) {
                None
            } else {
                scan(cs.drop_first(), Seq::<char>::empty(), groups.push((digits_val(buf), c)))
            }
        } else {
            None
        }
    }
}

/// The groups of a whole duration string, where it is well formed.
pub open spec fn spec_groups(cs: Seq<char>) -> Option<Seq<(nat, char)>> {
    scan(cs, Seq::<char>::empty(), Seq::<(nat, char)>::empty())
}

/// True when `cs` matches the duration grammar.
pub open spec fn parse_ok(cs: Seq<char>) -> bool {
    spec_groups(cs) is Some
}

/// Total seconds denoted by a well-formed duration string.
pub open spec fn parse_total(cs: Seq<char>) -> nat
    recommends
        parse_ok(cs),
{
    sum_weighted(spec_groups(cs)->Some_0)
}

/// Pushing a group adds its weighted value to the total.
pub proof fn lemma_sum_weighted_push(groups: Seq<(nat, char)>, p: (nat, char))
    ensures
        sum_weighted(groups.push(p)) == sum_weighted(groups) + p.0 * unit_weight(p.1),
{
    assert(groups.push(p).drop_last() =~= groups);
    assert(groups.push(p).last() == p);
}

/// A pushed group carries its own unit and keeps the units already there.
pub proof fn lemma_has_unit_push(groups: Seq<(nat, char)>, p: (nat, char), u: char)
    ensures
        has_unit(groups.push(p), u) <==> (has_unit(groups, u) || p.1 == u),
{
    if p.1 == u {
        assert(groups.push(p)[groups.len() as int] == p);
    }
    if has_unit(groups, u) {
        let j = choose|j: int| 0 <= j < groups.len() && (#[trigger] groups[j]).1 == u;
        assert(groups.push(p)[j] == groups[j]);
    }
    if has_unit(groups.push(p), u) {
        let j = choose|j: int|
            0 <= j < groups.push(p).len() && (#[trigger] groups.push(p)[j]).1 == u;
        if j < groups.len() {
            assert(groups[j] == groups.push(p)[j]);
        } else {
            assert(groups.push(p)[j] == p);
        }
    }
}

/// What a scan yields is worth at least the groups and digits already read:
/// the total can only grow as the scan goes on.
pub proof fn lemma_scan_lower_bound(cs: Seq<char>, buf: Seq<char>, groups: Seq<(nat, char)>)
    requires
        scan(cs, buf, groups) is Some,
    ensures
        sum_weighted(scan(cs, buf, groups)->Some_0) >= sum_weighted(groups) + digits_val(buf),
    decreases cs.len(),
{
    if cs.len() == 0 {
    } else {
        let c = cs[0];
        if is_digit_char(c) {
            lemma_scan_lower_bound(cs.drop_first(), buf.push(c), groups);
            lemma_digits_val_push(buf, c);
        } else {
            let p = (digits_val(buf), c);
            lemma_scan_lower_bound(cs.drop_first(), Seq::<char>::empty(), groups.push(p));
            lemma_sum_weighted_push(groups, p);
            assert(p.0 * unit_weight(p.1) >= p.0) by (nonlinear_arith)
                requires
                    unit_weight(p.1) >= 1,
            ;
        }
    }
}

/// Scanning a run of digits only moves it into the digit buffer.
pub proof fn lemma_scan_digits(
    ds: Seq<char>,
    rest: Seq<char>,
    buf: Seq<char>,
    groups: Seq<(nat, char)>,
)
    requires
        all_digits(ds),
    ensures
        scan(ds + rest, buf, groups) == scan(rest, buf + ds, groups),
    decreases ds.len(),
{
    if ds.len() == 0 {
        assert(ds + rest =~= rest);
        assert(buf + ds =~= buf);
    } else {
        let c = ds[0];
        assert((ds + rest)[0] == c);
        assert((ds + rest).drop_first() =~= ds.drop_first() + rest);
        assert forall|i: int| 0 <= i < ds.drop_first().len() implies is_digit_char(
            #[trigger] ds.drop_first()[i],
        ) by {
            assert(ds.drop_first()[i] == ds[i + 1]);
        }
        lemma_scan_digits(ds.drop_first(), rest, buf.push(c), groups);
        assert(buf.push(c) + ds.drop_first() =~= buf + ds);
    }
}

/// A duration written in the canonical ordered form `AhBmCs`, with each
/// component rendered in decimal, parses back to exactly
/// `A * 3600 + B * 60 + C` seconds.
pub proof fn lemma_parse_canonical(a: nat, b: nat, c: nat)
    requires
        a < 1000000,
        b < 1000000,
        c < 1000000,
    ensures
        ({
            let cs = crate::digits::spec_decimal(a) + seq!['h'] + crate::digits::spec_decimal(b)
                + seq!['m'] + crate::digits::spec_decimal(c) + seq!['s'];
            &&& parse_ok(cs)
            &&& parse_total(cs) == a * 3600 + b * 60 + c
            &&& parse_total(cs) <= usize::MAX
        }),
{
    let da = crate::digits::spec_decimal(a);
    let db = crate::digits::spec_decimal(b);
    let dc = crate::digits::spec_decimal(c);
    crate::digits::lemma_spec_decimal_wf(a);
    crate::digits::lemma_spec_decimal_wf(b);
    crate::digits::lemma_spec_decimal_wf(c);
    crate::digits::lemma_spec_decimal_val(a);
    crate::digits::lemma_spec_decimal_val(b);
    crate::digits::lemma_spec_decimal_val(c);
    let cs = da + seq!['h'] + db + seq!['m'] + dc + seq!['s'];
    let e = Seq::<char>::empty();
    let g0 = Seq::<(nat, char)>::empty();
    let rest1 = seq!['h'] + db + seq!['m'] + dc + seq!['s'];
    let rest2 = db + (seq!['m'] + dc + seq!['s']);
    let rest3 = seq!['m'] + dc + seq!['s'];
    let rest4 = dc + seq!['s'];
    let rest5 = seq!['s'];
    let g1 = g0.push((a, 'h'));
    let g2 = g1.push((b, 'm'));
    let g3 = g2.push((c, 's'));

    assert(cs =~= da + rest1);
    assert(e + da =~= da);
    lemma_scan_digits(da, rest1, e, g0);
    assert(spec_groups(cs) == scan(rest1, da, g0));

    assert(rest1[0] == 'h');
    assert(!has_unit(g0, 'h'));
    assert(rest1.drop_first() =~= rest2);
    assert(scan(rest1, da, g0) == scan(rest2, e, g1));

    assert(e + db =~= db);
    lemma_scan_digits(db, rest3, e, g1);
    assert(scan(rest2, e, g1) == scan(rest3, db, g1));

    assert(rest3[0] == 'm');
    assert(!has_unit(g1, 'm')) by {
        assert(forall|j: int| 0 <= j < g1.len() ==> (#[trigger] g1[j]).1 == 'h');
    }
    assert(rest3.drop_first() =~= rest4);
    assert(scan(rest3, db, g1) == scan(rest4, e, g2));

    assert(e + dc =~= dc);
    lemma_scan_digits(dc, rest5, e, g2);
    assert(rest4 =~= dc + rest5);
    assert(scan(rest4, e, g2) == scan(rest5, dc, g2));

    assert(rest5[0] == 's');
    assert(!has_unit(g2, 's')) by {
        assert(forall|j: int|
            0 <= j < g2.len() ==> (#[trigger] g2[j]).1 == 'h' || g2[j].1 == 'm');
    }
    assert(rest5.drop_first() =~= e);
    assert(scan(rest5, dc, g2) == scan(e, e, g3));
    assert(scan(e, e, g3) == Some(g3));

    lemma_sum_weighted_push(g0, (a, 'h'));
    lemma_sum_weighted_push(g1, (b, 'm'));
    lemma_sum_weighted_push(g2, (c, 's'));
    assert(parse_total(cs) == a * 3600 + b * 60 + c);
    assert(a * 3600 <= 999999 * 3600);
    assert(b * 60 <= 999999 * 60);
    assert(usize::MAX >= 0xffff_ffff);
}

/// The configuration of one run of the timer: the countdown length.
pub struct Config {
    /// Total length of the countdown, in seconds.
    pub seconds: usize,
}

impl Config {
    /// Parses a compact duration string such as `"1h2m30s"` into its total
    /// number of seconds.
    ///
    /// Returns `Ok` exactly when the input matches the grammar and the total
    /// fits in `usize`; any other input yields a [`ParserError`].
    pub fn parse_time_string(time_string: &str) -> (r: Result<usize, ParserError>)
        ensures
            r is Ok <==> parse_ok(time_string@) && parse_total(time_string@) <= usize::MAX,
            r is Ok ==> r->Ok_0 == parse_total(time_string@),
    {
        let ghost cs = time_string@;
        let n = time_string.unicode_len();
        let mut i: usize = 0;
        let mut total: usize = 0;
        let mut buf_val: usize = 0;
        let mut buf_nonempty: bool = false;
        let mut seen_h: bool = false;
        let mut seen_m: bool = false;
        let mut seen_s: bool = false;
        let ghost mut buf = Seq::<char>::empty();
        let ghost mut groups = Seq::<(nat, char)>::empty();
        assert(cs.skip(0) =~= cs);
        while i < n
            invariant
                n == cs.len(),
                0 <= i <= n,
                cs == time_string@,
                scan(cs.skip(i as int), buf, groups) == spec_groups(cs),
                buf_val as nat == digits_val(buf),
                all_digits(buf),
                buf_nonempty <==> buf.len() > 0,
                total as nat == sum_weighted(groups),
                seen_h <==> has_unit(groups, 'h'),
                seen_m <==> has_unit(groups, 'm'),
                seen_s <==> has_unit(groups, 's'),
                forall|j: int| 0 <= j < groups.len() ==> is_unit_char((#[trigger] groups[j]).1),
            decreases n - i,
        {
            let c = time_string.get_char(i);
            let ghost rest = cs.skip(i as int);
            proof {
                assert(rest[0] == c);
                assert(rest.drop_first() =~= cs.skip(i as int + 1));
            }
            if '0' <= c && c <= '9' {
                let d: usize = (c as usize) - 48;
                assert(d as nat == digit_val(c));
                if buf_val > (usize::MAX - d) / 10 {
                    proof {
                        lemma_digits_val_push(buf, c);
                        if parse_ok(cs) {
                            lemma_scan_lower_bound(rest.drop_first(), buf.push(c), groups);
                        }
                    }
                    return Err(ParserError);
                }
                buf_val = buf_val * 10 + d;
                buf_nonempty = true;
                proof {
                    lemma_digits_val_push(buf, c);
                    buf = buf.push(c);
                }
            } else if c == 'h' || c == 'm' || c == 's' {
                if !buf_nonempty {
                    return Err(ParserError);
                }
                if (c == 'h' && seen_h) || (c == 'm' && seen_m) || (c == 's' && seen_s) {
                    return Err(ParserError);
                }
                let weight: usize = if c == 'h' {
                    3600
                } else if c == 'm' {
                    60
                } else {
                    1
                };
                let ghost p = (digits_val(buf), c);
                if buf_val > usize::MAX / weight {
                    proof {
                        if parse_ok(cs) {
                            lemma_scan_lower_bound(
                                rest.drop_first(),
                                Seq::<char>::empty(),
                                groups.push(p),
                            );
                            lemma_sum_weighted_push(groups, p);
                        }
                    }
                    return Err(ParserError);
                }
                let contribution: usize = buf_val * weight;
                if total > usize::MAX - contribution {
                    proof {
                        if parse_ok(cs) {
                            lemma_scan_lower_bound(
                                rest.drop_first(),
                                Seq::<char>::empty(),
                                groups.push(p),
                            );
                            lemma_sum_weighted_push(groups, p);
                        }
                    }
                    return Err(ParserError);
                }
                total = total + contribution;
                if c == 'h' {
                    seen_h = true;
                } else if c == 'm' {
                    seen_m = true;
                } else {
                    seen_s = true;
                }
                proof {
                    lemma_sum_weighted_push(groups, p);
                    lemma_has_unit_push(groups, p, 'h');
                    lemma_has_unit_push(groups, p, 'm');
                    lemma_has_unit_push(groups, p, 's');
                    groups = groups.push(p);
                    buf = Seq::<char>::empty();
                }
                buf_val = 0;
                buf_nonempty = false;
            } else {
                return Err(ParserError);
            }
            i = i + 1;
        }
        proof {
            assert(cs.skip(n as int) =~= Seq::<char>::empty());
        }
        if buf_nonempty {
            return Err(ParserError);
        }
        if !(seen_h || seen_m || seen_s) {
            assert(groups.len() == 0) by {
                if groups.len() > 0 {
                    assert(is_unit_char(groups[0].1));
                }
            }
            return Err(ParserError);
        }
        assert(groups.len() > 0) by {
            if seen_h {
                assert(has_unit(groups, 'h'));
            } else if seen_m {
                assert(has_unit(groups, 'm'));
            } else {
                assert(has_unit(groups, 's'));
            }
        }
        Ok(total)
    }

    /// Builds the configuration from a duration string: the compute half of
    /// reading the command line.
    pub fn from_time_string(time_string: &str) -> (r: Result<Config, ParserError>)
        ensures
            r is Ok <==> parse_ok(time_string@) && parse_total(time_string@) <= usize::MAX,
            r is Ok ==> r->Ok_0.seconds == parse_total(time_string@),
    {
        match Self::parse_time_string(time_string) {
            Ok(seconds) => Ok(Config { seconds }),
            Err(e) => Err(e),
        }
    }
}

} // verus!
