//! Context lines about the outside world: weather codes, location, prices,
//! and the tasks and projects of the Nexus service.

use vstd::prelude::*;

use crate::operators::string_views;
use crate::text::{
    chars_of, decimal, push_decimal, push_str, str_eq, string_of, string_of_str, trim_end_chars,
    trim_end_seq,
};

verus! {

broadcast use vstd::string::group_string_axioms;

/// The description of a WMO weather code.
pub open spec fn weather_text(code: i64) -> Seq<char> {
    if code == 0 {
        "Clear"@
    } else if code == 1 {
        "Mainly clear"@
    } else if code == 2 {
        "Partly cloudy"@
    } else if code == 3 {
        "Overcast"@
    } else if code == 45 {
        "Foggy"@
    } else if code == 48 {
        "Depositing rime fog"@
    } else if code == 51 {
        "Light drizzle"@
    } else if code == 53 {
        "Moderate drizzle"@
    } else if code == 55 {
        "Dense drizzle"@
    } else if code == 56 {
        "Light freezing drizzle"@
    } else if code == 61 {
        "Slight rain"@
    } else if code == 63 {
        "Moderate rain"@
    } else if code == 65 {
        "Heavy rain"@
    } else if code == 66 {
        "Light freezing rain"@
    } else if code == 71 {
        "Slight snow"@
    } else if code == 73 {
        "Moderate snow"@
    } else if code == 75 {
        "Heavy snow"@
    } else if code == 77 {
        "Snow grains"@
    } else if code == 80 {
        "Slight rain showers"@
    } else if code == 81 {
        "Moderate rain showers"@
    } else if code == 82 {
        "Violent rain showers"@
    } else if code == 85 {
        "Slight snow showers"@
    } else if code == 86 {
        "Heavy snow showers"@
    } else if code == 95 {
        "Thunderstorm"@
    } else if code == 96 {
        "Thunderstorm with slight hail"@
    } else if code == 99 {
        "Thunderstorm with heavy hail"@
    } else {
        "Unknown"@
    }
}

/// The description of a WMO weather code.
pub fn weather_description(code: i64) -> (r: &'static str)
    ensures
        r@ == weather_text(code),
{
    match code {
        0 => "Clear",
        1 => "Mainly clear",
        2 => "Partly cloudy",
        3 => "Overcast",
        45 => "Foggy",
        48 => "Depositing rime fog",
        51 => "Light drizzle",
        53 => "Moderate drizzle",
        55 => "Dense drizzle",
        56 => "Light freezing drizzle",
        61 => "Slight rain",
        63 => "Moderate rain",
        65 => "Heavy rain",
        66 => "Light freezing rain",
        71 => "Slight snow",
        73 => "Moderate snow",
        75 => "Heavy snow",
        77 => "Snow grains",
        80 => "Slight rain showers",
        81 => "Moderate rain showers",
        82 => "Violent rain showers",
        85 => "Slight snow showers",
        86 => "Heavy snow showers",
        95 => "Thunderstorm",
        96 => "Thunderstorm with slight hail",
        99 => "Thunderstorm with heavy hail",
        _ => "Unknown",
    }
}

/// What a JSON object holds under a key, as far as text goes.
#[derive(Debug)]
pub enum JsonText {
    /// The key is absent.
    Missing,
    /// The key holds something other than a string.
    Other,
    /// The key holds a string.
    Text(String),
}

/// The text of a field that must be present, `"?"` when it is not a string.
pub open spec fn field_or_unknown(f: JsonText) -> Seq<char> {
    match f {
        JsonText::Text(s) => s@,
        _ => "?"@,
    }
}

/// The location line of a geolocation reply, when its status is `"success"`
/// and city, country and address are all present.
pub open spec fn geo_text(status: JsonText, city: JsonText, country: JsonText, ip: JsonText) -> Option<
    Seq<char>,
> {
    if (status matches JsonText::Text(s) && s@ == "success"@) && !(city is Missing) && !(
    country is Missing) && !(ip is Missing) {
        Some(
            "Location: "@ + field_or_unknown(city) + ", "@ + field_or_unknown(country) + " (IP: "@
                + field_or_unknown(ip) + ")"@,
        )
    } else {
        None
    }
}

fn push_field(s: &mut String, f: &JsonText)
    ensures
        final(s)@ == old(s)@ + field_or_unknown(*f),
{
    match f {
        JsonText::Text(t) => push_str(s, t.as_str()),
        _ => push_str(s, "?"),
    }
}

/// The location line of a geolocation reply.
pub fn geo_line(status: &JsonText, city: &JsonText, country: &JsonText, ip: &JsonText) -> (r: Option<
    String,
>)
    ensures
        match r {
            Some(t) => geo_text(*status, *city, *country, *ip) == Some(t@),
            None => geo_text(*status, *city, *country, *ip) is None,
        },
{
    let ok = match status {
        JsonText::Text(s) => str_eq(s.as_str(), "success"),
        _ => false,
    };
    if !ok {
        return None;
    }
    match (city, country, ip) {
        (JsonText::Missing, _, _) | (_, JsonText::Missing, _) | (_, _, JsonText::Missing) => None,
        _ => {
            let mut s = String::new();
            push_str(&mut s, "Location: ");
            push_field(&mut s, city);
            push_str(&mut s, ", ");
            push_field(&mut s, country);
            push_str(&mut s, " (IP: ");
            push_field(&mut s, ip);
            push_str(&mut s, ")");
            Some(s)
        },
    }
}

/// The price line of a price reply that holds a rate.
pub fn btc_line(rate: &Option<String>) -> (r: Option<String>)
    ensures
        match rate {
            Some(x) => r matches Some(t) && t@ == "BTC price: $"@ + x@,
            None => r is None,
        },
{
    match rate {
        Some(x) => {
            let mut s = String::new();
            push_str(&mut s, "BTC price: $");
            push_str(&mut s, x.as_str());
            Some(s)
        },
        None => None,
    }
}

/// A task of the Nexus service.
#[derive(Debug)]
pub struct NexusTask {
    pub title: Option<String>,
    pub status: Option<String>,
}

/// A project of the Nexus service.
#[derive(Debug)]
pub struct NexusProject {
    pub name: Option<String>,
}

/// The text of an optional string, or `default`.
pub open spec fn text_or(o: Option<String>, default: Seq<char>) -> Seq<char> {
    match o {
        Some(s) => s@,
        None => default,
    }
}

/// The line of one task: `  - [status] title`.
pub open spec fn task_text(t: NexusTask) -> Seq<char> {
    "  - ["@ + text_or(t.status, "unknown"@) + "] "@ + text_or(t.title, "untitled"@)
}

/// The line of one project: `  - name`.
pub open spec fn project_text(p: NexusProject) -> Seq<char> {
    "  - "@ + text_or(p.name, "unnamed"@)
}

/// The lines of the tasks.
pub open spec fn task_texts(ts: Seq<NexusTask>) -> Seq<Seq<char>> {
    Seq::new(ts.len(), |i: int| task_text(ts[i]))
}

/// The lines of the projects.
pub open spec fn project_texts(ps: Seq<NexusProject>) -> Seq<Seq<char>> {
    Seq::new(ps.len(), |i: int| project_text(ps[i]))
}

/// The lines about the tasks: a header and up to five tasks.
pub open spec fn tasks_text(tasks: Option<Vec<NexusTask>>) -> Seq<Seq<char>> {
    match tasks {
        None => seq!["Nexus: tasks unavailable"@],
        Some(ts) => if ts@.len() == 0 {
            seq!["Nexus: no recent tasks"@]
        } else {
            seq!["Nexus recent tasks ("@ + decimal(ts@.len()) + "):"@] + task_texts(ts@.take(
                if ts@.len() < 5 {
                    ts@.len() as int
                } else {
                    5
                },
            ))
        },
    }
}

/// The lines about the projects: a header and up to three projects.
pub open spec fn projects_text(projects: Option<Vec<NexusProject>>) -> Seq<Seq<char>> {
    match projects {
        None => seq!["Nexus: projects unavailable"@],
        Some(ps) => if ps@.len() == 0 {
            seq!["Nexus: no projects"@]
        } else {
            seq!["Nexus projects ("@ + decimal(ps@.len()) + "):"@] + project_texts(ps@.take(
                if ps@.len() < 3 {
                    ps@.len() as int
                } else {
                    3
                },
            ))
        },
    }
}

fn push_opt(s: &mut String, o: &Option<String>, default: &str)
    ensures
        final(s)@ == old(s)@ + text_or(*o, default@),
{
    match o {
        Some(t) => push_str(s, t.as_str()),
        None => push_str(s, default),
    }
}

/// The context lines from the Nexus service: `None` stands for a request that
/// failed.
pub fn nexus_context(tasks: &Option<Vec<NexusTask>>, projects: &Option<Vec<NexusProject>>) -> (r:
    Vec<String>)
    ensures
        string_views(r@) == tasks_text(*tasks) + projects_text(*projects),
{
    let mut out: Vec<String> = Vec::new();
    match tasks {
        None => out.push(string_of_str("Nexus: tasks unavailable")),
        Some(ts) => {
            if ts.len() == 0 {
                out.push(string_of_str("Nexus: no recent tasks"));
            } else {
                let mut h = String::new();
                push_str(&mut h, "Nexus recent tasks (");
                push_decimal(&mut h, ts.len() as u128);
                push_str(&mut h, "):");
                out.push(h);
                let k: usize = if ts.len() < 5 {
                    ts.len()
                } else {
                    5
                };
                let mut i: usize = 0;
                while i < k
                    invariant
                        k <= ts@.len(),
                        i <= k,
                        out@.len() == i + 1,
                        out@[0]@ == "Nexus recent tasks ("@ + decimal(ts@.len())
                            + "):"@,
                        forall|j: int| 0 <= j < i ==> #[trigger] out@[j + 1]@ == task_text(ts@[j]),
                    decreases k - i,
                {
                    let mut line = String::new();
                    push_str(&mut line, "  - [");
                    push_opt(&mut line, &ts[i].status, "unknown");
                    push_str(&mut line, "] ");
                    push_opt(&mut line, &ts[i].title, "untitled");
                    out.push(line);
                    i = i + 1;
                }
                proof {
                    let tk = ts@.take(k as int);
                    let exp = tasks_text(*tasks);
                    assert(exp == seq!["Nexus recent tasks ("@ + decimal(ts@.len()) + "):"@]
                        + task_texts(tk));
                    assert forall|j: int| 0 <= j < out@.len() implies string_views(out@)[j]
                        == exp[j] by {
                        if j > 0 {
                            assert(out@[(j - 1) + 1]@ == task_text(ts@[j - 1]));
                            assert(tk[j - 1] == ts@[j - 1]);
                        }
                    }
                    assert(string_views(out@) =~= tasks_text(*tasks));
                }
            }
        },
    }
    let ghost first = out@;
    assert(string_views(out@) =~= tasks_text(*tasks));
    match projects {
        None => out.push(string_of_str("Nexus: projects unavailable")),
        Some(ps) => {
            if ps.len() == 0 {
                out.push(string_of_str("Nexus: no projects"));
            } else {
                let mut h = String::new();
                push_str(&mut h, "Nexus projects (");
                push_decimal(&mut h, ps.len() as u128);
                push_str(&mut h, "):");
                out.push(h);
                let k: usize = if ps.len() < 3 {
                    ps.len()
                } else {
                    3
                };
                let mut i: usize = 0;
                while i < k
                    invariant
                        k <= ps@.len(),
                        i <= k,
                        out@.len() == first.len() + i + 1,
                        forall|j: int| 0 <= j < first.len() ==> #[trigger] out@[j] == first[j],
                        out@[first.len() as int]@ == "Nexus projects ("@ + decimal(
                            ps@.len(),
                        ) + "):"@,
                        forall|j: int|
                            0 <= j < i ==> #[trigger] out@[first.len() + j + 1]@ == project_text(
                                ps@[j],
                            ),
                    decreases k - i,
                {
                    let mut line = String::new();
                    push_str(&mut line, "  - ");
                    push_opt(&mut line, &ps[i].name, "unnamed");
                    out.push(line);
                    i = i + 1;
                }
            }
        },
    }
    proof {
        let a = tasks_text(*tasks);
        let b = projects_text(*projects);
        assert(string_views(first) =~= a);
        match projects {
            None => {},
            Some(ps) => {
                if ps@.len() > 0 {
                    let k: int = if ps@.len() < 3 {
                        ps@.len() as int
                    } else {
                        3
                    };
                    let pk = ps@.take(k);
                    assert forall|j: int| 0 <= j < out@.len() implies string_views(out@)[j] == (a
                        + b)[j] by {
                        if j < first.len() {
                            assert(out@[j] == first[j]);
                            assert(string_views(first)[j] == a[j]);
                        } else if j > first.len() {
                            let t = j - first.len() - 1;
                            assert(out@[first.len() + t + 1]@ == project_text(ps@[t]));
                            assert(pk[t] == ps@[t]);
                        }
                    }
                }
            },
        }
        assert(string_views(out@) =~= a + b);
    }
    out
}

/// The base address of the Nexus service: `url` without its trailing slashes.
pub fn nexus_base_url(url: &str) -> (r: String)
    ensures
        r@ == trim_end_seq(url@, seq!['/']),
{
    let c = chars_of(url);
    let slash = vec!['/'];
    assert(slash@ =~= seq!['/']);
    let t = trim_end_chars(c.as_slice(), slash.as_slice());
    assert(t@.subrange(0, t@.len() as int) =~= t@);
    string_of(t.as_slice(), 0, t.len())
}

} // verus!
