//! Rendering a finished scan report as the two output lines: the closed
//! count, and the open ports in a bracketed, comma-separated list.  Purely
//! presentational; the caller prints the lines.

use vstd::prelude::*;

use crate::digits::dec_repr;
use crate::digits::digit_byte;
use crate::digits::lemma_dec_repr_wf;
use crate::report::ScanReport;
use vstd::string::StringExecFns;

verus! {

/// The characters of a run of ASCII bytes.
pub open spec fn ascii_chars(s: Seq<u8>) -> Seq<char> {
    s.map_values(|b: u8| b as char)
}

/// Is every byte of `s` ASCII?
pub open spec fn all_ascii(s: Seq<u8>) -> bool {
    forall|i: int| 0 <= i < s.len() ==> #[trigger] s[i] < 128
}

/// The decimal rendering of `n`, as characters.
pub open spec fn dec_chars(n: int) -> Seq<char> {
    ascii_chars(dec_repr(n))
}

/// The comma-separated body of the open-ports list, in list order.
pub open spec fn ports_inner_chars(ports: Seq<u16>) -> Seq<char>
    decreases ports.len(),
{
    if ports.len() == 0 {
        Seq::empty()
    } else if ports.len() == 1 {
        dec_chars(ports[0] as int)
    } else {
        ports_inner_chars(ports.drop_last()) + ", "@ + dec_chars(ports.last() as int)
    }
}

/// The first output line: the closed-port count.
pub open spec fn closed_line_chars(count: int) -> Seq<char> {
    "Number of closed ports: "@ + dec_chars(count)
}

/// The second output line: the open ports, bracketed.
pub open spec fn open_line_chars(ports: Seq<u16>) -> Seq<char> {
    "Open ports: ["@ + ports_inner_chars(ports) + "]"@
}

/// Relies on `String::from_utf8`: a buffer of ASCII bytes decodes to the
/// string of exactly those characters.
#[verifier::external_body]
fn ascii_string(bytes: Vec<u8>) -> (r: String)
    requires
        all_ascii(bytes@),
    ensures
        r@ == ascii_chars(bytes@),
{
    String::from_utf8(bytes).unwrap_or_default()
}

/// Appends the decimal rendering of `n` to `out`.
fn push_dec(out: &mut Vec<u8>, n: u64)
    ensures
        final(out)@ == old(out)@ + dec_repr(n as int),
    decreases n,
{
    if n < 10 {
        out.push((48 + n) as u8);
        proof {
            assert(dec_repr(n as int) =~= seq![digit_byte(n as int)]);
            assert(out@ =~= old(out)@ + dec_repr(n as int));
        }
    } else {
        push_dec(out, n / 10);
        out.push((48 + n % 10) as u8);
        proof {
            assert((48 + n % 10) as u8 == digit_byte(n as int % 10));
            assert(out@ =~= old(out)@ + dec_repr(n as int));
        }
    }
}

/// The decimal rendering of `n`, as a `String`.
fn dec_string(n: u64) -> (r: String)
    ensures
        r@ == dec_chars(n as int),
{
    let mut buf: Vec<u8> = Vec::new();
    push_dec(&mut buf, n);
    proof {
        lemma_dec_repr_wf(n as int);
        assert(buf@ =~= dec_repr(n as int));
    }
    ascii_string(buf)
}

/// The closed-count line for a report.
pub fn closed_count_line(report: &ScanReport) -> (r: String)
    ensures
        r@ == closed_line_chars(report.closed_count as int),
{
    let digits = dec_string(report.closed_count as u64);
    let mut line = String::from_str("Number of closed ports: ");
    line.append(digits.as_str());
    line
}

/// The open-ports line for a report.
pub fn open_ports_line(report: &ScanReport) -> (r: String)
    ensures
        r@ == open_line_chars(report.open_ports@),
{
    let ports = &report.open_ports;
    let mut line = String::from_str("Open ports: [");
    let mut i: usize = 0;
    while i < ports.len()
        invariant
            i <= ports@.len(),
            line@ == "Open ports: ["@ + ports_inner_chars(ports@.take(i as int)),
        decreases ports@.len() - i,
    {
        if i > 0 {
            line.append(", ");
        }
        let digits = dec_string(ports[i] as u64);
        line.append(digits.as_str());
        proof {
            let prefix = ports@.take(i as int);
            let upto = ports@.take(i + 1);
            assert(upto.drop_last() =~= prefix);
            assert(upto.last() == ports@[i as int]);
            if i == 0 {
                assert(ports_inner_chars(upto) == dec_chars(ports@[i as int] as int));
                assert(line@ =~= "Open ports: ["@ + ports_inner_chars(upto));
            } else {
                assert(ports_inner_chars(upto) == ports_inner_chars(prefix) + ", "@ + dec_chars(
                    ports@[i as int] as int,
                ));
                assert(line@ =~= "Open ports: ["@ + ports_inner_chars(upto));
            }
        }
        i = i + 1;
    }
    proof {
        assert(ports@.take(ports@.len() as int) =~= ports@);
    }
    line.append("]");
    line
}

} // verus!
