//! The status document a server answers status requests with.
use vstd::prelude::*;
use vstd::string::StringExecFns;

verus! {

/// What the status document reports. `version_name` and `description` are
/// JSON texts (a string and a chat component), put into the document as
/// they are; the numbers are written in decimal.
pub struct StatusInfo {
    pub version_name: String,
    pub protocol: i32,
    pub max_players: i32,
    pub online: i32,
    pub description: String,
}

/// The decimal digit `d`, below 10.
pub open spec fn digit_str(d: nat) -> &'static str {
    if d == 0 {
        "0"
    } else if d == 1 {
        "1"
    } else if d == 2 {
        "2"
    } else if d == 3 {
        "3"
    } else if d == 4 {
        "4"
    } else if d == 5 {
        "5"
    } else if d == 6 {
        "6"
    } else if d == 7 {
        "7"
    } else if d == 8 {
        "8"
    } else {
        "9"
    }
}

/// `n` in decimal, without leading zeros.
pub open spec fn decimal_text(n: nat) -> Seq<char>
    decreases n,
{
    if n < 10 {
        digit_str(n)@
    } else {
        decimal_text(n / 10) + digit_str(n % 10)@
    }
}

/// `x` in decimal, after a `-` when it is negative.
pub open spec fn integer_text(x: int) -> Seq<char> {
    if x < 0 {
        "-"@ + decimal_text((-x) as nat)
    } else {
        decimal_text(x as nat)
    }
}

/// The status document: a JSON object with `version.name`,
/// `version.protocol`, `players.max`, `players.online`, an empty
/// `players.sample` and the description.
pub open spec fn status_document(i: StatusInfo) -> Seq<char> {
    "{\"version\":{\"name\":"@ + i.version_name@ + ",\"protocol\":"@ + integer_text(
        i.protocol as int,
    ) + "},\"players\":{\"max\":"@ + integer_text(i.max_players as int) + ",\"online\":"@
        + integer_text(i.online as int) + ",\"sample\":[]},\"description\":"@ + i.description@
        + "}"@
}

fn digit(d: u64) -> (r: &'static str)
    requires
        d < 10,
    ensures
        r == digit_str(d as nat),
{
    if d == 0 {
        "0"
    } else if d == 1 {
        "1"
    } else if d == 2 {
        "2"
    } else if d == 3 {
        "3"
    } else if d == 4 {
        "4"
    } else if d == 5 {
        "5"
    } else if d == 6 {
        "6"
    } else if d == 7 {
        "7"
    } else if d == 8 {
        "8"
    } else {
        "9"
    }
}

/// Appends `n` in decimal.
fn append_decimal(out: &mut String, n: u64)
    ensures
        final(out)@ == old(out)@ + decimal_text(n as nat),
    decreases n,
{
    if n >= 10 {
        append_decimal(out, n / 10);
    }
    out.append(digit(n % 10));
    proof {
        if n >= 10 {
            assert(old(out)@ + decimal_text((n / 10) as nat) + digit_str((n % 10) as nat)@
                == old(out)@ + decimal_text(n as nat));
        }
    }
}

/// Appends `x` in decimal, after a `-` when it is negative.
fn append_integer(out: &mut String, x: i32)
    ensures
        final(out)@ == old(out)@ + integer_text(x as int),
{
    if x < 0 {
        out.append("-");
        append_decimal(out, (-(x as i64)) as u64);
        assert(old(out)@ + "-"@ + decimal_text((-x) as nat) == old(out)@ + integer_text(x as int));
    } else {
        append_decimal(out, x as u64);
    }
}

/// The status document of `info`.
pub fn status_json(info: &StatusInfo) -> (r: String)
    ensures
        r@ == status_document(*info),
{
    let mut out = String::from_str("{\"version\":{\"name\":");
    out.append(info.version_name.as_str());
    out.append(",\"protocol\":");
    append_integer(&mut out, info.protocol);
    out.append("},\"players\":{\"max\":");
    append_integer(&mut out, info.max_players);
    out.append(",\"online\":");
    append_integer(&mut out, info.online);
    out.append(",\"sample\":[]},\"description\":");
    out.append(info.description.as_str());
    out.append("}");
    out
}

} // verus!
