//! SVG badge generation and human-readable size formatting.

use vstd::prelude::*;

verus! {

use crate::decimal::dec_digits;
use crate::decimal::digit_char;
use crate::decimal::digit_str;
use crate::decimal::decimal_string;
use vstd::string::StringExecFns;

/// `bytes / unit` scaled to tenths and rounded to the nearest tenth, ties to
/// even, as decimal formatting of the exact quotient rounds.
pub open spec fn rounded_tenths(bytes: nat, unit: nat) -> nat
    recommends
        unit > 0,
{
    let q = (bytes * 10) / unit;
    let r = (bytes * 10) % unit;
    if 2 * r > unit {
        q + 1
    } else if 2 * r < unit {
        q
    } else if q % 2 == 0 {
        q
    } else {
        q + 1
    }
}

/// The quotient `bytes / unit` rendered with one decimal place.
pub open spec fn scaled_chars(bytes: nat, unit: nat) -> Seq<char>
    recommends
        unit > 0,
{
    let t = rounded_tenths(bytes, unit);
    dec_digits(t / 10) + "."@ + seq![digit_char((t % 10) as int)]
}

/// A byte count formatted for humans: plain bytes below 1024, kibibytes with
/// one decimal place below 1024 * 1024, mebibytes with one decimal place
/// otherwise.
pub open spec fn formatted_size(bytes: u64) -> Seq<char> {
    if bytes < 1024 {
        dec_digits(bytes as nat) + "B"@
    } else if bytes < 1048576 {
        scaled_chars(bytes as nat, 1024) + "K"@
    } else {
        scaled_chars(bytes as nat, 1048576) + "M"@
    }
}

/// `bytes / unit` with one decimal place, for `unit` a power-of-two scale.
fn scaled_string(bytes: u64, unit: u64) -> (r: String)
    requires
        unit == 1024 || unit == 1048576,
    ensures
        r@ == scaled_chars(bytes as nat, unit as nat),
{
    let t10: u128 = (bytes as u128) * 10;
    let q: u128 = t10 / (unit as u128);
    let rem: u128 = t10 % (unit as u128);
    let t: u128 = if 2 * rem > unit as u128 {
        q + 1
    } else if 2 * rem < unit as u128 {
        q
    } else if q % 2 == 0 {
        q
    } else {
        q + 1
    };
    proof {
        if unit == 1024 {
            assert(q <= t10 / 1024);
        } else {
            assert(q <= t10 / 1048576);
        }
        assert(t == rounded_tenths(bytes as nat, unit as nat));
        assert(t / 10 <= u64::MAX);
        assert(t % 10 < 10);
    }
    let whole: u64 = (t / 10) as u64;
    let tenth: u64 = (t % 10) as u64;
    decimal_string(whole).concat(".").concat(digit_str(tenth))
}

/// Format a byte count as a human-readable string, with suffix `B`, `K` or
/// `M` and thresholds at 1024 and 1024 * 1024.
pub fn format_size(bytes: u64) -> (r: String)
    ensures
        r@ == formatted_size(bytes),
{
    if bytes < 1024 {
        decimal_string(bytes).concat("B")
    } else if bytes < 1048576 {
        scaled_string(bytes, 1024).concat("K")
    } else {
        scaled_string(bytes, 1048576).concat("M")
    }
}

/// The SVG badge text for a label/value pair drawn over the given color.
/// Widths derive from the byte lengths of the label and the value.
pub open spec fn svg_badge(label: &str, value: &str, color: &str) -> Seq<char> {
    let lw = label.len() as int * 7 + 10;
    let vw = value.len() as int * 7 + 10;
    let tw = lw + vw;
    "<svg xmlns=\"http://www.w3.org/2000/svg\" width=\""@ + dec_digits(tw as nat)
        + "\" height=\"20\">\n  <linearGradient id=\"b\" x2=\"0\" y2=\"100%\">\n    <stop offset=\"0\" stop-color=\"#bbb\" stop-opacity=\".1\"/>\n    <stop offset=\"1\" stop-opacity=\".1\"/>\n  </linearGradient>\n  <rect rx=\"3\" width=\""@
        + dec_digits(tw as nat) + "\" height=\"20\" fill=\"#555\"/>\n  <rect rx=\"3\" x=\""@
        + dec_digits(lw as nat) + "\" width=\""@ + dec_digits(vw as nat)
        + "\" height=\"20\" fill=\""@ + color@ + "\"/>\n  <rect rx=\"3\" width=\""@ + dec_digits(
        tw as nat,
    )
        + "\" height=\"20\" fill=\"url(#b)\"/>\n  <g fill=\"#fff\" text-anchor=\"middle\" font-family=\"DejaVu Sans,Verdana,Geneva,sans-serif\" font-size=\"11\">\n    <text x=\""@
        + dec_digits((lw / 2) as nat) + "\" y=\"15\" fill=\"#010101\" fill-opacity=\".3\">"@
        + label@ + "</text>\n    <text x=\""@ + dec_digits((lw / 2) as nat) + "\" y=\"14\">"@
        + label@ + "</text>\n    <text x=\""@ + dec_digits((lw + vw / 2) as nat)
        + "\" y=\"15\" fill=\"#010101\" fill-opacity=\".3\">"@ + value@
        + "</text>\n    <text x=\""@ + dec_digits((lw + vw / 2) as nat) + "\" y=\"14\">"@ + value@
        + "</text>\n  </g>\n</svg>"@
}

/// Generate an SVG badge for a label/value pair in the given color.
pub fn create_badge(label: &str, value: &str, color: &str) -> (r: String)
    requires
        label.len() * 7 + value.len() * 7 + 20 <= usize::MAX,
    ensures
        r@ == svg_badge(label, value, color),
{
    let label_width: usize = label.len() * 7 + 10;
    let value_width: usize = value.len() * 7 + 10;
    let total_width: usize = label_width + value_width;
    let tw_s = decimal_string(total_width as u64);
    let lw_s = decimal_string(label_width as u64);
    let vw_s = decimal_string(value_width as u64);
    let lh_s = decimal_string((label_width / 2) as u64);
    let vh_s = decimal_string((label_width + value_width / 2) as u64);
    let mut r = String::new();
    r.append("<svg xmlns=\"http://www.w3.org/2000/svg\" width=\"");
    r.append(tw_s.as_str());
    r.append(
        "\" height=\"20\">\n  <linearGradient id=\"b\" x2=\"0\" y2=\"100%\">\n    <stop offset=\"0\" stop-color=\"#bbb\" stop-opacity=\".1\"/>\n    <stop offset=\"1\" stop-opacity=\".1\"/>\n  </linearGradient>\n  <rect rx=\"3\" width=\"",
    );
    r.append(tw_s.as_str());
    r.append("\" height=\"20\" fill=\"#555\"/>\n  <rect rx=\"3\" x=\"");
    r.append(lw_s.as_str());
    r.append("\" width=\"");
    r.append(vw_s.as_str());
    r.append("\" height=\"20\" fill=\"");
    r.append(color);
    r.append("\"/>\n  <rect rx=\"3\" width=\"");
    r.append(tw_s.as_str());
    r.append(
        "\" height=\"20\" fill=\"url(#b)\"/>\n  <g fill=\"#fff\" text-anchor=\"middle\" font-family=\"DejaVu Sans,Verdana,Geneva,sans-serif\" font-size=\"11\">\n    <text x=\"",
    );
    r.append(lh_s.as_str());
    r.append("\" y=\"15\" fill=\"#010101\" fill-opacity=\".3\">");
    r.append(label);
    r.append("</text>\n    <text x=\"");
    r.append(lh_s.as_str());
    r.append("\" y=\"14\">");
    r.append(label);
    r.append("</text>\n    <text x=\"");
    r.append(vh_s.as_str());
    r.append("\" y=\"15\" fill=\"#010101\" fill-opacity=\".3\">");
    r.append(value);
    r.append("</text>\n    <text x=\"");
    r.append(vh_s.as_str());
    r.append("\" y=\"14\">");
    r.append(value);
    r.append("</text>\n  </g>\n</svg>");
    proof {
        assert(r@ =~= svg_badge(label, value, color));
    }
    r
}

} // verus!
