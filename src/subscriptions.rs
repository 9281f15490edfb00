use vstd::prelude::*;
use vstd::string::StringExecFns;

verus! {

/// The unsubscribe correlation id is the subscribe id plus this offset.
pub const UNSUBSCRIBE_ID_OFFSET: u64 = 1000;

/// Endpoint for a single raw stream; the stream name follows it.
pub const WS_URL: &'static str = "wss://stream.binance.com:9443/ws/";

/// Endpoint for combined streams; the `/`-joined stream names follow it.
pub const WS_COMBINED_URL: &'static str = "wss://stream.binance.com:9443/stream?streams=";

/// The compact JSON text of an array of strings, as serde_json writes it.
pub uninterp spec fn json_string_array(items: Seq<Seq<char>>) -> Seq<char>;

/// Relies on serde_json: `Value::from` turns the strings into a JSON array of
/// strings, and `Value`'s `Display` writes that array as compact JSON text.
#[verifier::external_body]
fn json_array_of(items: &Vec<String>) -> (r: String)
    ensures
        r@ == json_string_array(items.deep_view()),
{
    serde_json::Value::from(items.clone()).to_string()
}

/// The character of a decimal digit.
pub open spec fn digit_char(d: int) -> char {
    if d == 0 {
        '0'
    } else if d == 1 {
        '1'
    } else if d == 2 {
        '2'
    } else if d == 3 {
        '3'
    } else if d == 4 {
        '4'
    } else if d == 5 {
        '5'
    } else if d == 6 {
        '6'
    } else if d == 7 {
        '7'
    } else if d == 8 {
        '8'
    } else {
        '9'
    }
}

/// Decimal numeral of `n`, without leading zeros.
pub open spec fn decimal_text(n: nat) -> Seq<char>
    decreases n,
{
    if n < 10 {
        seq![digit_char(n as int)]
    } else {
        decimal_text(n / 10).push(digit_char((n % 10) as int))
    }
}

fn digit_str(d: u64) -> (r: &'static str)
    requires
        d < 10,
    ensures
        r@ == seq![digit_char(d as int)],
{
    proof {
        reveal_strlit("0");
        reveal_strlit("1");
        reveal_strlit("2");
        reveal_strlit("3");
        reveal_strlit("4");
        reveal_strlit("5");
        reveal_strlit("6");
        reveal_strlit("7");
        reveal_strlit("8");
        reveal_strlit("9");
    }
    if d == 0 {
        "0"
    } else if d == 1 {
        "1"
    } else if d == 2 {
        "2"
    } else if d == 3 {
        "3"
    } else if d == 4 {
        "4"
    } else if d == 5 {
        "5"
    } else if d == 6 {
        "6"
    } else if d == 7 {
        "7"
    } else if d == 8 {
        "8"
    } else {
        assert(seq!['9'] =~= "9"@);
        "9"
    }
}

/// Writes `n` in decimal.
pub fn decimal_string(n: u64) -> (r: String)
    ensures
        r@ == decimal_text(n as nat),
    decreases n,
{
    if n < 10 {
        String::from_str(digit_str(n))
    } else {
        let mut s = decimal_string(n / 10);
        s.append(digit_str(n % 10));
        s
    }
}

/// The text of a control request: `{"method":<method>,"params":<params>,"id":<id>}`.
pub open spec fn control_text(method: Seq<char>, params: Seq<char>, id: nat) -> Seq<char> {
    "{\"method\":\""@ + method + "\",\"params\":"@ + params + ",\"id\":"@ + decimal_text(id) + "}"@
}

/// Text of the request subscribing to `streams` under correlation id `id`.
pub open spec fn subscribe_text(streams: Seq<Seq<char>>, id: nat) -> Seq<char> {
    control_text("SUBSCRIBE"@, json_string_array(streams), id)
}

/// Text of the request unsubscribing from `streams` under correlation id `id`.
pub open spec fn unsubscribe_text(streams: Seq<Seq<char>>, id: nat) -> Seq<char> {
    control_text("UNSUBSCRIBE"@, json_string_array(streams), id)
}

fn control_message(method: &str, streams: &Vec<String>, id: u64) -> (r: String)
    ensures
        r@ == control_text(method@, json_string_array(streams.deep_view()), id as nat),
{
    let mut text = String::from_str("{\"method\":\"");
    text.append(method);
    text.append("\",\"params\":");
    let params = json_array_of(streams);
    text.append(params.as_str());
    text.append(",\"id\":");
    let digits = decimal_string(id);
    text.append(digits.as_str());
    text.append("}");
    text
}

/// The SUBSCRIBE request for `streams`, tagged with correlation id `id`.
pub fn subscribe_message(streams: Vec<String>, id: u64) -> (r: String)
    ensures
        r@ == subscribe_text(streams.deep_view(), id as nat),
{
    control_message("SUBSCRIBE", &streams, id)
}

/// The UNSUBSCRIBE request for `streams`, tagged with correlation id `id`.
pub fn unsubscribe_message(streams: Vec<String>, id: u64) -> (r: String)
    ensures
        r@ == unsubscribe_text(streams.deep_view(), id as nat),
{
    control_message("UNSUBSCRIBE", &streams, id)
}

/// `<symbol>@<channel>`.
pub fn stream_name(symbol: &str, channel: &str) -> (r: String)
    ensures
        r@ == symbol@ + "@"@ + channel@,
{
    let mut name = String::from_str(symbol);
    name.append("@");
    name.append(channel);
    name
}

/// `<symbol>@<channel>_<interval>`, for interval-bearing channels.
pub fn interval_stream_name(symbol: &str, channel: &str, interval: &str) -> (r: String)
    ensures
        r@ == symbol@ + "@"@ + channel@ + "_"@ + interval@,
{
    let mut name = String::from_str(symbol);
    name.append("@");
    name.append(channel);
    name.append("_");
    name.append(interval);
    name
}

/// One stream name per symbol on `channel`, in the symbols' order; with an
/// interval, each name carries it as `_<interval>`.
pub fn channel_streams(symbols: &Vec<String>, channel: &str, interval: Option<&str>) -> (r: Vec<
    String,
>)
    ensures
        r.len() == symbols.len(),
        forall|i: int|
            0 <= i < r.len() ==> #[trigger] r[i]@ == match interval {
                Some(iv) => symbols[i]@ + "@"@ + channel@ + "_"@ + iv@,
                None => symbols[i]@ + "@"@ + channel@,
            },
{
    let mut out: Vec<String> = Vec::with_capacity(symbols.len());
    let mut i: usize = 0;
    while i < symbols.len()
        invariant
            i <= symbols.len(),
            out.len() == i,
            forall|j: int|
                0 <= j < i ==> #[trigger] out[j]@ == match interval {
                    Some(iv) => symbols[j]@ + "@"@ + channel@ + "_"@ + iv@,
                    None => symbols[j]@ + "@"@ + channel@,
                },
        decreases symbols.len() - i,
    {
        let name = match interval {
            Some(iv) => interval_stream_name(symbols[i].as_str(), channel, iv),
            None => stream_name(symbols[i].as_str(), channel),
        };
        out.push(name);
        i += 1;
    }
    out
}

/// The names joined with `/` between neighbours.
pub open spec fn slash_joined(names: Seq<Seq<char>>) -> Seq<char>
    decreases names.len(),
{
    if names.len() == 0 {
        Seq::empty()
    } else if names.len() == 1 {
        names[0]
    } else {
        slash_joined(names.drop_last()) + "/"@ + names.last()
    }
}

/// The endpoint `base` followed by the stream names joined with `/`.
pub fn stream_url(base: &str, streams: &Vec<String>) -> (r: String)
    ensures
        r@ == base@ + slash_joined(streams.deep_view()),
{
    let mut url = String::from_str(base);
    let ghost names = streams.deep_view();
    let mut i: usize = 0;
    while i < streams.len()
        invariant
            names == streams.deep_view(),
            i <= names.len(),
            url@ == base@ + slash_joined(names.subrange(0, i as int)),
        decreases names.len() - i,
    {
        proof {
            let next = names.subrange(0, i as int + 1);
            assert(next.drop_last() =~= names.subrange(0, i as int));
            assert(next.last() == streams[i as int]@);
            if i == 0 {
                assert(names.subrange(0, 0) =~= Seq::<Seq<char>>::empty());
            }
        }
        if i > 0 {
            url.append("/");
        }
        url.append(streams[i].as_str());
        proof {
            if i == 0 {
                assert(url@ =~= base@ + slash_joined(names.subrange(0, i as int + 1)));
            } else {
                assert(url@ =~= base@ + slash_joined(names.subrange(0, i as int + 1)));
            }
        }
        i += 1;
    }
    proof {
        assert(names.subrange(0, names.len() as int) =~= names);
    }
    url
}

} // verus!
