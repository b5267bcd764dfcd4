//! The host-identity snapshot: the one-time-captured, read-only description
//! of the running process's name, host name and network addresses, and its
//! deterministic multi-line rendering.
//!
//! Querying the environment and the operating system is I/O that the
//! unverified front end performs; it hands this module plain values.

use vstd::prelude::*;
use vstd::string::StringExecFns;

verus! {

/// A network address, held as plain numbers so that rendering is this
/// crate's own, fully specified logic.
#[derive(Clone, Copy, PartialEq, Eq, Structural, Debug)]
pub enum IpAddress {
    /// An IPv4 address as its four octets.
    V4(u8, u8, u8, u8),
    /// An IPv6 address as its eight 16-bit groups.
    V6(u16, u16, u16, u16, u16, u16, u16, u16),
}

/// The host-identity snapshot. Captured once at startup, best effort:
/// a sub-query that fails leaves its field absent, never aborts startup.
/// Immutable for the rest of the process lifetime.
pub struct HostIdentity {
    /// The reported application name, if the recognized environment
    /// variable was set.
    pub name: Option<String>,
    /// The machine's host name, if it could be determined.
    pub hostname: Option<String>,
    /// The local interface addresses, in enumeration order.
    pub addresses: Vec<IpAddress>,
}

impl HostIdentity {
    /// Assembles a snapshot from the plain values the front end queried.
    /// Absent inputs simply stay absent.
    pub fn capture(name: Option<String>, hostname: Option<String>, addresses: Vec<IpAddress>) -> (h: HostIdentity)
        ensures
            h.name == name,
            h.hostname == hostname,
            h.addresses == addresses,
    {
        HostIdentity { name, hostname, addresses }
    }

    /// Renders the snapshot: one line per present field, in the fixed order
    /// name, hostname, then one line per address in enumeration order;
    /// absent fields contribute nothing, and a fully absent snapshot renders
    /// as the empty string. Deterministic in the snapshot value.
    pub fn render(&self) -> (s: String)
        ensures
            s@ == render_spec(*self),
    {
        let mut out = String::new();
        if let Some(n) = &self.name {
            out.append("Name: ");
            out.append(n.as_str());
            out.append("\n");
        }
        if let Some(n) = &self.hostname {
            out.append("Hostname: ");
            out.append(n.as_str());
            out.append("\n");
        }
        proof {
            assert(out@ =~= name_line(self.name) + hostname_line(self.hostname));
            assert(ip_lines(self.addresses@.subrange(0, 0)) =~= Seq::<char>::empty());
        }
        let mut i: usize = 0;
        while i < self.addresses.len()
            invariant
                i <= self.addresses@.len(),
                out@ == name_line(self.name) + hostname_line(self.hostname) + ip_lines(
                    self.addresses@.subrange(0, i as int),
                ),
            decreases self.addresses@.len() - i,
        {
            let ghost prefix = self.addresses@.subrange(0, i as int);
            out.append("IP: ");
            push_ip_text(&mut out, &self.addresses[i]);
            out.append("\n");
            proof {
                let next = self.addresses@.subrange(0, i + 1);
                assert(next.drop_last() =~= prefix);
                assert(next.last() == self.addresses@[i as int]);
                assert(ip_lines(next) == ip_lines(prefix) + "IP: "@ + ip_text(
                    self.addresses@[i as int],
                ) + "\n"@);
                assert(out@ =~= name_line(self.name) + hostname_line(self.hostname) + ip_lines(
                    next,
                ));
            }
            i = i + 1;
        }
        proof {
            assert(self.addresses@.subrange(0, self.addresses@.len() as int) =~= self.addresses@);
        }
        out
    }
}

/// The line the name contributes, empty when the name is absent.
pub open spec fn name_line(name: Option<String>) -> Seq<char> {
    match name {
        Some(n) => "Name: "@ + n@ + "\n"@,
        None => Seq::empty(),
    }
}

/// The line the host name contributes, empty when it is absent.
pub open spec fn hostname_line(hostname: Option<String>) -> Seq<char> {
    match hostname {
        Some(n) => "Hostname: "@ + n@ + "\n"@,
        None => Seq::empty(),
    }
}

/// The lines the addresses contribute, one per address, in order.
pub open spec fn ip_lines(ips: Seq<IpAddress>) -> Seq<char>
    decreases ips.len(),
{
    if ips.len() == 0 {
        Seq::empty()
    } else {
        ip_lines(ips.drop_last()) + "IP: "@ + ip_text(ips.last()) + "\n"@
    }
}

/// The rendered form of a snapshot: name line, host-name line, address
/// lines — each only when present.
pub open spec fn render_spec(h: HostIdentity) -> Seq<char> {
    name_line(h.name) + hostname_line(h.hostname) + ip_lines(h.addresses@)
}

/// The character for one digit in decimal or lower-case hexadecimal.
pub open spec fn digit_char(d: nat) -> char
    recommends
        d < 16,
{
    if d == 0 {
        '0'
    } else if d == 1 {
        '1'
    } else if d == 2 {
        '2'
    } else if d == 3 {
        '3'
    } else if d == 4 {
        '4'
    } else if d == 5 {
        '5'
    } else if d == 6 {
        '6'
    } else if d == 7 {
        '7'
    } else if d == 8 {
        '8'
    } else if d == 9 {
        '9'
    } else if d == 10 {
        'a'
    } else if d == 11 {
        'b'
    } else if d == 12 {
        'c'
    } else if d == 13 {
        'd'
    } else if d == 14 {
        'e'
    } else {
        'f'
    }
}

/// The decimal digits of `n`, most significant first, no leading zeros.
pub open spec fn dec_text(n: nat) -> Seq<char>
    decreases n,
{
    if n < 10 {
        seq![digit_char(n)]
    } else {
        dec_text(n / 10).push(digit_char(n % 10))
    }
}

/// The lower-case hexadecimal digits of `n`, most significant first, no
/// leading zeros.
pub open spec fn hex_text(n: nat) -> Seq<char>
    decreases n,
{
    if n < 16 {
        seq![digit_char(n)]
    } else {
        hex_text(n / 16).push(digit_char(n % 16))
    }
}

/// How many consecutive zero groups start at index `i`.
pub open spec fn zero_run_len(s: Seq<u16>, i: int) -> nat
    decreases (if i < s.len() {
        s.len() - i
    } else {
        0
    }),
{
    if 0 <= i && i < s.len() && s[i] == 0 {
        (1 + zero_run_len(s, i + 1)) as nat
    } else {
        0
    }
}

/// The start of the zero run that `::` may stand for: among the runs
/// beginning at or after `i`, the leftmost one of maximal length.
pub open spec fn best_run_from(s: Seq<u16>, i: int) -> int
    recommends
        0 <= i < s.len(),
    decreases (if i < s.len() {
        s.len() - i
    } else {
        0
    }),
{
    if i + 1 >= s.len() {
        i
    } else {
        let later = best_run_from(s, i + 1);
        if zero_run_len(s, i) >= zero_run_len(s, later) {
            i
        } else {
            later
        }
    }
}

/// The groups joined by single colons, in order, no compression.
pub open spec fn hex_join(s: Seq<u16>) -> Seq<char>
    decreases s.len(),
{
    if s.len() == 0 {
        Seq::empty()
    } else if s.len() == 1 {
        hex_text(s[0] as nat)
    } else {
        hex_join(s.drop_last()) + seq![':'] + hex_text(s.last() as nat)
    }
}

/// The textual form of eight IPv6 groups: the leftmost longest run of at
/// least two zero groups is written `::`; with no such run all eight groups
/// are written out, colon-separated.
pub open spec fn ipv6_text(s: Seq<u16>) -> Seq<char>
    recommends
        s.len() == 8,
{
    let b = best_run_from(s, 0);
    let l = zero_run_len(s, b);
    if l < 2 {
        hex_join(s)
    } else {
        hex_join(s.subrange(0, b)) + seq![':', ':'] + hex_join(
            s.subrange(b + l as int, s.len() as int),
        )
    }
}

/// The textual form of an address: dotted decimal for IPv4; for IPv6 the
/// lower-case hexadecimal groups without leading zeros, the leftmost
/// longest run of two or more zero groups compressed to `::`.
pub open spec fn ip_text(ip: IpAddress) -> Seq<char> {
    match ip {
        IpAddress::V4(a, b, c, d) => dec_text(a as nat) + seq!['.'] + dec_text(b as nat)
            + seq!['.'] + dec_text(c as nat) + seq!['.'] + dec_text(d as nat),
        IpAddress::V6(g0, g1, g2, g3, g4, g5, g6, g7) => ipv6_text(
            seq![g0, g1, g2, g3, g4, g5, g6, g7],
        ),
    }
}

/// How many lines a text contains, counting one per newline character.
pub open spec fn line_count(s: Seq<char>) -> nat
    decreases s.len(),
{
    if s.len() == 0 {
        0
    } else {
        line_count(s.drop_last()) + if s.last() == '\n' {
            1nat
        } else {
            0nat
        }
    }
}

/// Whether a text contains no newline character.
pub open spec fn newline_free(s: Seq<char>) -> bool {
    forall|i: int| 0 <= i < s.len() ==> s[i] != '\n'
}

/// How many fields the snapshot presents: the optional name, the optional
/// host name, and one per address.
pub open spec fn present_field_count(h: HostIdentity) -> nat {
    (if h.name is Some {
        1nat
    } else {
        0nat
    }) + (if h.hostname is Some {
        1nat
    } else {
        0nat
    }) + h.addresses@.len()
}

/// Line counting distributes over concatenation.
proof fn lemma_line_count_concat(a: Seq<char>, b: Seq<char>)
    ensures
        line_count(a + b) == line_count(a) + line_count(b),
    decreases b.len(),
{
    if b.len() == 0 {
        assert(a + b =~= a);
    } else {
        assert((a + b).drop_last() =~= a + b.drop_last());
        assert((a + b).last() == b.last());
        lemma_line_count_concat(a, b.drop_last());
    }
}

/// A newline-free text contains no line.
proof fn lemma_line_count_newline_free(s: Seq<char>)
    requires
        newline_free(s),
    ensures
        line_count(s) == 0,
    decreases s.len(),
{
    if s.len() > 0 {
        assert(newline_free(s.drop_last()));
        lemma_line_count_newline_free(s.drop_last());
    }
}

/// Digit runs contain no newline.
proof fn lemma_dec_text_newline_free(n: nat)
    ensures
        newline_free(dec_text(n)),
    decreases n,
{
    if n < 10 {
    } else {
        lemma_dec_text_newline_free(n / 10);
        assert(newline_free(dec_text(n))) by {
            assert(dec_text(n) == dec_text(n / 10).push(digit_char(n % 10)));
        }
    }
}

/// Hexadecimal runs contain no newline.
proof fn lemma_hex_text_newline_free(n: nat)
    ensures
        newline_free(hex_text(n)),
    decreases n,
{
    if n < 16 {
    } else {
        lemma_hex_text_newline_free(n / 16);
        assert(newline_free(hex_text(n))) by {
            assert(hex_text(n) == hex_text(n / 16).push(digit_char(n % 16)));
        }
    }
}

/// A newline-free text stays newline-free under concatenation.
proof fn lemma_newline_free_concat(a: Seq<char>, b: Seq<char>)
    requires
        newline_free(a),
        newline_free(b),
    ensures
        newline_free(a + b),
{
    assert forall|i: int| 0 <= i < (a + b).len() implies (a + b)[i] != '\n' by {
        if i < a.len() {
            assert((a + b)[i] == a[i]);
        } else {
            assert((a + b)[i] == b[i - a.len()]);
        }
    }
}

/// Colon-joined groups contain no newline.
proof fn lemma_hex_join_newline_free(s: Seq<u16>)
    ensures
        newline_free(hex_join(s)),
    decreases s.len(),
{
    if s.len() == 0 {
    } else if s.len() == 1 {
        lemma_hex_text_newline_free(s[0] as nat);
    } else {
        lemma_hex_join_newline_free(s.drop_last());
        lemma_hex_text_newline_free(s.last() as nat);
        assert(newline_free(seq![':']));
        lemma_newline_free_concat(hex_join(s.drop_last()), seq![':']);
        lemma_newline_free_concat(hex_join(s.drop_last()) + seq![':'], hex_text(s.last() as nat));
    }
}

/// An address's textual form contains no newline.
proof fn lemma_ip_text_newline_free(ip: IpAddress)
    ensures
        newline_free(ip_text(ip)),
{
    match ip {
        IpAddress::V4(a, b, c, d) => {
            lemma_dec_text_newline_free(a as nat);
            lemma_dec_text_newline_free(b as nat);
            lemma_dec_text_newline_free(c as nat);
            lemma_dec_text_newline_free(d as nat);
        },
        IpAddress::V6(g0, g1, g2, g3, g4, g5, g6, g7) => {
            let s = seq![g0, g1, g2, g3, g4, g5, g6, g7];
            let b = best_run_from(s, 0);
            let l = zero_run_len(s, b);
            if l < 2 {
                lemma_hex_join_newline_free(s);
            } else {
                lemma_hex_join_newline_free(s.subrange(0, b));
                lemma_hex_join_newline_free(s.subrange(b + l as int, s.len() as int));
                assert(newline_free(seq![':', ':']));
                lemma_newline_free_concat(hex_join(s.subrange(0, b)), seq![':', ':']);
                lemma_newline_free_concat(
                    hex_join(s.subrange(0, b)) + seq![':', ':'],
                    hex_join(s.subrange(b + l as int, s.len() as int)),
                );
            }
        },
    }
}

/// The address lines contribute exactly one line per address.
proof fn lemma_ip_lines_count(ips: Seq<IpAddress>)
    ensures
        line_count(ip_lines(ips)) == ips.len(),
    decreases ips.len(),
{
    reveal_strlit("IP: ");
    reveal_strlit("\n");
    if ips.len() > 0 {
        lemma_ip_lines_count(ips.drop_last());
        lemma_ip_text_newline_free(ips.last());
        lemma_line_count_newline_free(ip_text(ips.last()));
        assert(newline_free("IP: "@));
        lemma_line_count_newline_free("IP: "@);
        lemma_line_count_concat(ip_lines(ips.drop_last()), "IP: "@);
        lemma_line_count_concat(ip_lines(ips.drop_last()) + "IP: "@, ip_text(ips.last()));
        lemma_line_count_concat(
            ip_lines(ips.drop_last()) + "IP: "@ + ip_text(ips.last()),
            "\n"@,
        );
        assert(line_count("\n"@) == 1) by {
            assert("\n"@.drop_last() =~= Seq::<char>::empty());
            assert(line_count(Seq::<char>::empty()) == 0);
            assert("\n"@.last() == '\n');
        }
    }
}

/// Law: the rendering contains exactly one line per present field — in the
/// fixed order name, host name, addresses — and zero lines for absent
/// fields, provided the present name and host name are themselves free of
/// newlines.
pub proof fn lemma_render_line_count(h: HostIdentity)
    requires
        h.name matches Some(n) ==> newline_free(n@),
        h.hostname matches Some(n) ==> newline_free(n@),
    ensures
        line_count(render_spec(h)) == present_field_count(h),
{
    reveal_strlit("Name: ");
    reveal_strlit("Hostname: ");
    reveal_strlit("\n");
    assert(line_count("\n"@) == 1) by {
        assert("\n"@.drop_last() =~= Seq::<char>::empty());
        assert(line_count(Seq::<char>::empty()) == 0);
        assert("\n"@.last() == '\n');
    }
    assert(line_count(name_line(h.name)) == if h.name is Some {
        1nat
    } else {
        0nat
    }) by {
        match h.name {
            Some(n) => {
                assert(newline_free("Name: "@));
                lemma_line_count_newline_free("Name: "@);
                lemma_line_count_newline_free(n@);
                lemma_line_count_concat("Name: "@, n@);
                lemma_line_count_concat("Name: "@ + n@, "\n"@);
            },
            None => {},
        }
    }
    assert(line_count(hostname_line(h.hostname)) == if h.hostname is Some {
        1nat
    } else {
        0nat
    }) by {
        match h.hostname {
            Some(n) => {
                assert(newline_free("Hostname: "@));
                lemma_line_count_newline_free("Hostname: "@);
                lemma_line_count_newline_free(n@);
                lemma_line_count_concat("Hostname: "@, n@);
                lemma_line_count_concat("Hostname: "@ + n@, "\n"@);
            },
            None => {},
        }
    }
    lemma_ip_lines_count(h.addresses@);
    lemma_line_count_concat(name_line(h.name), hostname_line(h.hostname));
    lemma_line_count_concat(name_line(h.name) + hostname_line(h.hostname), ip_lines(h.addresses@));
}

/// Law: a snapshot with every field absent renders as the empty string.
pub proof fn lemma_render_all_absent(h: HostIdentity)
    requires
        h.name is None,
        h.hostname is None,
        h.addresses@.len() == 0,
    ensures
        render_spec(h) == Seq::<char>::empty(),
{
    assert(render_spec(h) =~= Seq::<char>::empty());
}

/// One digit as a string slice.
fn digit_str(d: u8) -> (r: &'static str)
    requires
        d < 16,
    ensures
        r@ == seq![digit_char(d as nat)],
{
    match d {
        0 => {
            proof {
                reveal_strlit("0");
                assert("0"@ =~= seq![digit_char(d as nat)]);
            }
            "0"
        },
        1 => {
            proof {
                reveal_strlit("1");
                assert("1"@ =~= seq![digit_char(d as nat)]);
            }
            "1"
        },
        2 => {
            proof {
                reveal_strlit("2");
                assert("2"@ =~= seq![digit_char(d as nat)]);
            }
            "2"
        },
        3 => {
            proof {
                reveal_strlit("3");
                assert("3"@ =~= seq![digit_char(d as nat)]);
            }
            "3"
        },
        4 => {
            proof {
                reveal_strlit("4");
                assert("4"@ =~= seq![digit_char(d as nat)]);
            }
            "4"
        },
        5 => {
            proof {
                reveal_strlit("5");
                assert("5"@ =~= seq![digit_char(d as nat)]);
            }
            "5"
        },
        6 => {
            proof {
                reveal_strlit("6");
                assert("6"@ =~= seq![digit_char(d as nat)]);
            }
            "6"
        },
        7 => {
            proof {
                reveal_strlit("7");
                assert("7"@ =~= seq![digit_char(d as nat)]);
            }
            "7"
        },
        8 => {
            proof {
                reveal_strlit("8");
                assert("8"@ =~= seq![digit_char(d as nat)]);
            }
            "8"
        },
        9 => {
            proof {
                reveal_strlit("9");
                assert("9"@ =~= seq![digit_char(d as nat)]);
            }
            "9"
        },
        10 => {
            proof {
                reveal_strlit("a");
                assert("a"@ =~= seq![digit_char(d as nat)]);
            }
            "a"
        },
        11 => {
            proof {
                reveal_strlit("b");
                assert("b"@ =~= seq![digit_char(d as nat)]);
            }
            "b"
        },
        12 => {
            proof {
                reveal_strlit("c");
                assert("c"@ =~= seq![digit_char(d as nat)]);
            }
            "c"
        },
        13 => {
            proof {
                reveal_strlit("d");
                assert("d"@ =~= seq![digit_char(d as nat)]);
            }
            "d"
        },
        14 => {
            proof {
                reveal_strlit("e");
                assert("e"@ =~= seq![digit_char(d as nat)]);
            }
            "e"
        },
        _ => {
            proof {
                reveal_strlit("f");
                assert("f"@ =~= seq![digit_char(d as nat)]);
            }
            "f"
        },
    }
}

/// Appends the decimal digits of one octet.
fn push_dec_u8(out: &mut String, n: u8)
    ensures
        final(out)@ == old(out)@ + dec_text(n as nat),
{
    if n < 10 {
        out.append(digit_str(n));
        proof {
            assert(out@ =~= old(out)@ + dec_text(n as nat));
        }
    } else if n < 100 {
        out.append(digit_str(n / 10));
        out.append(digit_str(n % 10));
        proof {
            assert(dec_text((n as nat) / 10) =~= seq![digit_char((n as nat) / 10)]);
            assert(out@ =~= old(out)@ + dec_text(n as nat));
        }
    } else {
        out.append(digit_str(n / 100));
        out.append(digit_str((n / 10) % 10));
        out.append(digit_str(n % 10));
        proof {
            assert((n as nat) / 10 / 10 == (n as nat) / 100) by (nonlinear_arith);
            assert((n as nat) / 10 < 100);
            assert(dec_text((n as nat) / 10 / 10) =~= seq![digit_char((n as nat) / 100)]);
            assert(dec_text((n as nat) / 10) =~= seq![
                digit_char((n as nat) / 100),
                digit_char((n as nat) / 10 % 10),
            ]);
            assert(out@ =~= old(out)@ + dec_text(n as nat));
        }
    }
}

/// Appends the hexadecimal digits of one IPv6 group.
fn push_hex_u16(out: &mut String, n: u16)
    ensures
        final(out)@ == old(out)@ + hex_text(n as nat),
{
    if n < 16 {
        out.append(digit_str(n as u8));
        proof {
            assert(out@ =~= old(out)@ + hex_text(n as nat));
        }
    } else if n < 256 {
        out.append(digit_str((n / 16) as u8));
        out.append(digit_str((n % 16) as u8));
        proof {
            assert(hex_text((n as nat) / 16) =~= seq![digit_char((n as nat) / 16)]);
            assert(out@ =~= old(out)@ + hex_text(n as nat));
        }
    } else if n < 4096 {
        out.append(digit_str((n / 256) as u8));
        out.append(digit_str(((n / 16) % 16) as u8));
        out.append(digit_str((n % 16) as u8));
        proof {
            assert((n as nat) / 16 / 16 == (n as nat) / 256) by (nonlinear_arith);
            assert((n as nat) / 16 < 256);
            assert(hex_text((n as nat) / 16 / 16) =~= seq![digit_char((n as nat) / 256)]);
            assert(hex_text((n as nat) / 16) =~= seq![
                digit_char((n as nat) / 256),
                digit_char((n as nat) / 16 % 16),
            ]);
            assert(out@ =~= old(out)@ + hex_text(n as nat));
        }
    } else {
        out.append(digit_str((n / 4096) as u8));
        out.append(digit_str(((n / 256) % 16) as u8));
        out.append(digit_str(((n / 16) % 16) as u8));
        out.append(digit_str((n % 16) as u8));
        proof {
            assert((n as nat) / 16 / 16 == (n as nat) / 256) by (nonlinear_arith);
            assert((n as nat) / 256 / 16 == (n as nat) / 4096) by (nonlinear_arith);
            assert((n as nat) / 16 < 4096);
            assert((n as nat) / 256 < 256);
            assert(hex_text((n as nat) / 256 / 16) =~= seq![digit_char((n as nat) / 4096)]);
            assert(hex_text((n as nat) / 256) =~= seq![
                digit_char((n as nat) / 4096),
                digit_char((n as nat) / 256 % 16),
            ]);
            assert(hex_text((n as nat) / 16) =~= seq![
                digit_char((n as nat) / 4096),
                digit_char((n as nat) / 256 % 16),
                digit_char((n as nat) / 16 % 16),
            ]);
            assert(out@ =~= old(out)@ + hex_text(n as nat));
        }
    }
}

/// Appends the groups from `from` (inclusive) to `to` (exclusive), joined
/// by single colons.
fn push_hex_join(out: &mut String, gs: &Vec<u16>, from: usize, to: usize)
    requires
        from <= to,
        to <= gs@.len(),
    ensures
        final(out)@ == old(out)@ + hex_join(gs@.subrange(from as int, to as int)),
{
    proof {
        reveal_strlit(":");
        assert(":"@ =~= seq![':']);
        assert(gs@.subrange(from as int, from as int) =~= Seq::<u16>::empty());
        assert(out@ =~= old(out)@ + hex_join(gs@.subrange(from as int, from as int)));
    }
    let mut k: usize = from;
    while k < to
        invariant
            from <= k <= to,
            to <= gs@.len(),
            ":"@ == seq![':'],
            out@ == old(out)@ + hex_join(gs@.subrange(from as int, k as int)),
        decreases to - k,
    {
        if k > from {
            out.append(":");
        }
        push_hex_u16(out, gs[k]);
        proof {
            let sub1 = gs@.subrange(from as int, k + 1);
            assert(sub1.drop_last() =~= gs@.subrange(from as int, k as int));
            assert(sub1.last() == gs@[k as int]);
            assert(out@ =~= old(out)@ + hex_join(sub1));
        }
        k = k + 1;
    }
}

/// Appends the textual form of one address.
fn push_ip_text(out: &mut String, ip: &IpAddress)
    ensures
        final(out)@ == old(out)@ + ip_text(*ip),
{
    match *ip {
        IpAddress::V4(a, b, c, d) => {
            proof {
                reveal_strlit(".");
                assert("."@ =~= seq!['.']);
            }
            push_dec_u8(out, a);
            out.append(".");
            push_dec_u8(out, b);
            out.append(".");
            push_dec_u8(out, c);
            out.append(".");
            push_dec_u8(out, d);
            proof {
                assert(out@ =~= old(out)@ + ip_text(*ip));
            }
        },
        IpAddress::V6(g0, g1, g2, g3, g4, g5, g6, g7) => {
            let ghost s = seq![g0, g1, g2, g3, g4, g5, g6, g7];
            let mut gs: Vec<u16> = Vec::new();
            gs.push(g0);
            gs.push(g1);
            gs.push(g2);
            gs.push(g3);
            gs.push(g4);
            gs.push(g5);
            gs.push(g6);
            gs.push(g7);
            proof {
                assert(gs@ =~= s);
            }

            // The length of the zero run starting at each index, right to
            // left, so each value can build on its successor.
            let mut runs: Vec<usize> = vec![0, 0, 0, 0, 0, 0, 0, 0];
            let mut i: usize = 8;
            while i > 0
                invariant
                    i <= 8,
                    gs@ == s,
                    gs@.len() == 8,
                    runs@.len() == 8,
                    forall|j: int|
                        i <= j < 8 ==> runs@[j] == zero_run_len(gs@, j) && runs@[j] <= 8 - j,
                decreases i,
            {
                i = i - 1;
                let v: usize = if gs[i] == 0 {
                    if i == 7 {
                        1
                    } else {
                        runs[i + 1] + 1
                    }
                } else {
                    0
                };
                runs[i] = v;
                proof {
                    assert(zero_run_len(gs@, 8) == 0);
                    assert(runs@[i as int] == zero_run_len(gs@, i as int));
                }
            }

            // The leftmost longest run: scanning right to left, a tie moves
            // the choice left.
            let mut best: usize = 7;
            let mut k: usize = 7;
            while k > 0
                invariant
                    k <= 7,
                    best < 8,
                    gs@ == s,
                    gs@.len() == 8,
                    runs@.len() == 8,
                    forall|j: int|
                        0 <= j < 8 ==> runs@[j] == zero_run_len(gs@, j) && runs@[j] <= 8 - j,
                    best as int == best_run_from(gs@, k as int),
                decreases k,
            {
                k = k - 1;
                if runs[k] >= runs[best] {
                    best = k;
                }
                proof {
                    assert(best as int == best_run_from(gs@, k as int));
                }
            }

            let run = runs[best];
            if run >= 2 {
                push_hex_join(out, &gs, 0, best);
                out.append("::");
                push_hex_join(out, &gs, best + run, 8);
                proof {
                    reveal_strlit("::");
                    assert("::"@ =~= seq![':', ':']);
                    assert(out@ =~= old(out)@ + ip_text(*ip));
                }
            } else {
                push_hex_join(out, &gs, 0, 8);
                proof {
                    assert(gs@.subrange(0, 8) =~= gs@);
                    assert(out@ =~= old(out)@ + ip_text(*ip));
                }
            }
        },
    }
}

} // verus!
