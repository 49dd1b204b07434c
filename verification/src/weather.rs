//! Weather: the fetch command, the report extracted from the service's JSON,
//! and the texts read back from the cache.
use vstd::prelude::*;
use crate::json::{
    as_str, at, get, json_from_slice, json_from_str, json_string, spec_json_from_slice,
    spec_json_from_str, json_quote, Json,
};
use crate::text::{
    chars_of, is_ws, join, join_chars, lemma_skip_ws_bounds, lemma_word_end, push_all, push_str,
    skip_ws, split_words, string_of, trim, trim_chars, word_end, words, words_from,
};

verus! {

/// The argument vector of the fetch, `None` when the (trimmed) city is empty.
pub open spec fn spec_curl_argv(city: Seq<char>) -> Option<Seq<Seq<char>>> {
    let c = trim(city);
    if c.len() == 0 {
        None
    } else {
        Some(
            seq![
                "curl"@,
                "-m"@,
                "10"@,
                "-s"@,
                "https://wttr.in/"@ + join(words(c), "+"@) + "?format=j1"@,
            ],
        )
    }
}

/// The texts of a vector of strings.
pub open spec fn texts(v: Seq<String>) -> Seq<Seq<char>> {
    v.map_values(|s: String| s@)
}

/// The optional argument vector's texts.
pub open spec fn opt_texts(v: Option<Vec<String>>) -> Option<Seq<Seq<char>>> {
    match v {
        Some(x) => Some(texts(x@)),
        None => None,
    }
}

/// Builds the fetch command as data (no shell, no interpolation).
/// An empty city disables weather.
pub fn curl_argv(city: &str) -> (r: Option<Vec<String>>)
    ensures
        opt_texts(r) == spec_curl_argv(city@),
{
    let cv = chars_of(city);
    let c = trim_chars(&cv);
    if c.len() == 0 {
        return None;
    }
    let ws = split_words(&c);
    let plus = chars_of("+");
    let loc = join_chars(&ws, &plus);
    let mut url: Vec<char> = Vec::new();
    push_str(&mut url, "https://wttr.in/");
    push_all(&mut url, &loc);
    push_str(&mut url, "?format=j1");
    let mut v: Vec<String> = Vec::new();
    v.push(String::from_str("curl"));
    v.push(String::from_str("-m"));
    v.push(String::from_str("10"));
    v.push(String::from_str("-s"));
    v.push(string_of(url.as_slice()));
    assert(texts(v@) =~= spec_curl_argv(city@)->0);
    Some(v)
}

/// A text without whitespace.
pub open spec fn no_ws(s: Seq<char>) -> bool {
    forall|k: int| 0 <= k < s.len() ==> !is_ws(#[trigger] s[k])
}

proof fn lemma_words_no_ws(s: Seq<char>, i: int)
    ensures
        forall|j: int| 0 <= j < words_from(s, i).len() ==> no_ws(#[trigger] words_from(s, i)[j]),
    decreases s.len() - i,
{
    let a = skip_ws(s, i);
    if !(i < 0 || i > s.len() || a >= s.len()) {
        lemma_skip_ws_bounds(s, i);
        lemma_word_end(s, a);
        let b = word_end(s, a);
        if b > i {
            lemma_words_no_ws(s, b);
            let w = words_from(s, i);
            assert forall|j: int| 0 <= j < w.len() implies no_ws(#[trigger] w[j]) by {
                if j == 0 {
                    assert(w[0] == s.subrange(a, b));
                    assert forall|k: int| 0 <= k < w[0].len() implies !is_ws(#[trigger] w[0][k]) by {
                        assert(w[0][k] == s[a + k]);
                    }
                } else {
                    assert(w[j] == words_from(s, b)[j - 1]);
                }
            }
        }
    }
}

proof fn lemma_join_no_ws(list: Seq<Seq<char>>, sep: Seq<char>)
    requires
        forall|j: int| 0 <= j < list.len() ==> no_ws(#[trigger] list[j]),
        no_ws(sep),
    ensures
        no_ws(join(list, sep)),
    decreases list.len(),
{
    if list.len() > 1 {
        let dl = list.drop_last();
        assert forall|j: int| 0 <= j < dl.len() implies no_ws(#[trigger] dl[j]) by {
            assert(dl[j] == list[j]);
        }
        lemma_join_no_ws(dl, sep);
        let a = join(dl, sep);
        let l = list[list.len() - 1];
        assert forall|k: int| 0 <= k < (a + sep + l).len() implies !is_ws(#[trigger] (a + sep + l)[k]) by {
            if k < a.len() {
                assert((a + sep + l)[k] == a[k]);
            } else if k < a.len() + sep.len() {
                assert((a + sep + l)[k] == sep[k - a.len()]);
            } else {
                assert((a + sep + l)[k] == l[k - a.len() - sep.len()]);
            }
        }
    } else if list.len() == 1 {
        assert(no_ws(list[0]));
    }
}

/// The fetch never builds a command line to interpret: a non-empty city
/// gives exactly five arguments, and the address is an `https://wttr.in/`
/// URL without any whitespace in it.
pub proof fn fetch_url_is_one_argument(city: Seq<char>)
    ensures
        spec_curl_argv(city) matches Some(v) ==> {
            &&& v.len() == 5
            &&& no_ws(v[4])
            &&& v[4].take(16) == "https://wttr.in/"@
        },
{
    reveal_strlit("https://wttr.in/");
    reveal_strlit("?format=j1");
    reveal_strlit("+");
    let c = trim(city);
    if c.len() > 0 {
        lemma_words_no_ws(c, 0);
        lemma_join_no_ws(words(c), "+"@);
        let loc = join(words(c), "+"@);
        let url = "https://wttr.in/"@ + loc + "?format=j1"@;
        assert forall|k: int| 0 <= k < url.len() implies !is_ws(#[trigger] url[k]) by {
            if k < 16 {
                assert(url[k] == "https://wttr.in/"@[k]);
            } else if k < 16 + loc.len() {
                assert(url[k] == loc[k - 16]);
            } else {
                assert(url[k] == "?format=j1"@[k - 16 - loc.len()]);
            }
        }
        assert(url.take(16) =~= "https://wttr.in/"@);
    }
}

/// `get(key).and_then(as_str)` with a fallback.
pub open spec fn str_or(v: Json, key: Seq<char>, d: Seq<char>) -> Seq<char> {
    match get(v, key) {
        Some(x) => match as_str(x) {
            Some(s) => s,
            None => d,
        },
        None => d,
    }
}

fn str_or_exec(v: &Json, key: &str, d: &str) -> (r: Vec<char>)
    ensures
        r@ == str_or(*v, key@, d@),
{
    match v.get_member(key) {
        Some(x) => match x.as_text() {
            Some(s) => chars_of(s.as_str()),
            None => chars_of(d),
        },
        None => chars_of(d),
    }
}

/// The strings among array elements, in order (non-strings skipped).
pub open spec fn strings_of(a: Seq<Json>) -> Seq<Seq<char>>
    decreases a.len(),
{
    if a.len() == 0 {
        Seq::empty()
    } else {
        let rest = strings_of(a.drop_last());
        match as_str(a.last()) {
            Some(s) => rest.push(s),
            None => rest,
        }
    }
}

/// The temperature text of a cache document.
pub open spec fn temp_of(v: Json) -> Option<Seq<char>> {
    match get(v, "temp"@) {
        Some(t) => as_str(t),
        None => None,
    }
}

/// The temperature text cached by the last fetch.
pub open spec fn spec_cached_temp(text: Seq<char>) -> Option<Seq<char>> {
    match spec_json_from_str(text) {
        Some(v) => temp_of(v),
        None => None,
    }
}

/// The cached temperature text (`None` when the cache does not parse or has none).
pub fn cached_temp_in(text: &str) -> (r: Option<String>)
    ensures
        match r {
            Some(s) => spec_cached_temp(text@) == Some(s@),
            None => spec_cached_temp(text@) is None,
        },
{
    let v = json_from_str(text)?;
    cached_temp_of(&v)
}

/// The temperature text of a parsed cache document.
pub fn cached_temp_of(v: &Json) -> (r: Option<String>)
    ensures
        match r {
            Some(s) => temp_of(*v) == Some(s@),
            None => temp_of(*v) is None,
        },
{
    match v.get_member("temp") {
        Some(t) => match t.as_text() {
            Some(s) => Some(s.clone()),
            None => None,
        },
        None => None,
    }
}

/// The forecast lines of a cache document, joined by newlines.
pub open spec fn forecast_text(v: Json) -> Seq<char> {
    match get(v, "forecast"@) {
        Some(Json::Array(a)) => join(strings_of(a@), "\n"@),
        _ => Seq::empty(),
    }
}

/// The popup summary of a cache document: `city — temp desc`, then the
/// forecast lines when there are any.
pub open spec fn summary_of(city: Seq<char>, v: Json) -> Seq<char> {
    let head = city + " — "@ + str_or(v, "temp"@, "--"@) + " "@ + str_or(v, "desc"@, ""@);
    let fc = forecast_text(v);
    if fc.len() == 0 {
        head
    } else {
        head + "\n"@ + fc
    }
}

/// The popup summary of the cache text (an unparsable text counts as `null`).
pub open spec fn spec_cached_summary(city: Seq<char>, text: Seq<char>) -> Seq<char> {
    summary_of(
        city,
        match spec_json_from_str(text) {
            Some(v) => v,
            None => Json::Null,
        },
    )
}

/// Full cached summary (temperature, description, forecast) for the popup,
/// from the cache file's text (empty text when there is no cache).
pub fn cached_summary_in(city: &str, text: &str) -> (r: String)
    ensures
        r@ == spec_cached_summary(city@, text@),
{
    let v = match json_from_str(text) {
        Some(v) => v,
        None => Json::Null,
    };
    cached_summary_of(city, &v)
}

/// The popup summary of a parsed cache document.
pub fn cached_summary_of(city: &str, v: &Json) -> (r: String)
    ensures
        r@ == summary_of(city@, *v),
{
    let temp = str_or_exec(v, "temp", "--");
    let desc = str_or_exec(v, "desc", "");
    let mut lines: Vec<Vec<char>> = Vec::new();
    match v.get_member("forecast") {
        Some(f) => match f {
            Json::Array(a) => {
                let mut i: usize = 0;
                while i < a.len()
                    invariant
                        i <= a.len(),
                        lines@.map_values(|w: Vec<char>| w@) == strings_of(a@.take(i as int)),
                    decreases a.len() - i,
                {
                    match a[i].as_text() {
                        Some(s) => {
                            lines.push(chars_of(s.as_str()));
                        },
                        None => {},
                    }
                    assert(a@.take(i + 1).drop_last() =~= a@.take(i as int));
                    assert(lines@.map_values(|w: Vec<char>| w@) =~= strings_of(
                        a@.take(i + 1),
                    ));
                    i = i + 1;
                }
                assert(a@.take(a.len() as int) =~= a@);
            },
            _ => {},
        },
        None => {},
    }
    let nl = chars_of("\n");
    let fc = join_chars(&lines, &nl);
    let mut out: Vec<char> = Vec::new();
    push_str(&mut out, city);
    push_str(&mut out, " — ");
    push_all(&mut out, &temp);
    push_str(&mut out, " ");
    push_all(&mut out, &desc);
    if fc.len() > 0 {
        push_str(&mut out, "\n");
        push_all(&mut out, &fc);
    }
    assert(fc@ == forecast_text(*v));
    assert(out@ =~= summary_of(city@, *v));
    string_of(out.as_slice())
}

/// What a fetch extracts from the service's reply.
pub struct WeatherReport {
    /// `"<temp_C>°C (feels <FeelsLikeC>)"`.
    pub temp: String,
    /// The first weather description (empty when missing).
    pub desc: String,
    /// `"Humidity <humidity>%"`.
    pub hum: String,
    /// Up to three `"<date> <max>°/<min>°"` lines.
    pub forecast: Vec<String>,
}

/// `Value::pointer("/current_condition/0")`.
pub open spec fn current_condition(v: Json) -> Option<Json> {
    match get(v, "current_condition"@) {
        Some(c) => match c {
            Json::Object(_) => get(c, "0"@),
            Json::Array(_) => at(c, 0),
            _ => None,
        },
        None => None,
    }
}

/// The description: `weatherDesc[0].value` as text, empty when missing.
pub open spec fn desc_of(cur: Json) -> Seq<char> {
    match get(cur, "weatherDesc"@) {
        Some(d) => match at(d, 0) {
            Some(d0) => str_or(d0, "value"@, ""@),
            None => Seq::empty(),
        },
        None => Seq::empty(),
    }
}

/// One forecast line of a day object.
pub open spec fn day_line(d: Json) -> Seq<char> {
    str_or(d, "date"@, ""@) + " "@ + str_or(d, "maxtempC"@, "--"@) + "°/"@ + str_or(
        d,
        "mintempC"@,
        "--"@,
    ) + "°"@
}

/// The forecast lines: the first three days of `weather`.
pub open spec fn forecast_lines(v: Json) -> Seq<Seq<char>> {
    match get(v, "weather"@) {
        Some(Json::Array(a)) => {
            let n = if a@.len() < 3 {
                a@.len() as int
            } else {
                3
            };
            Seq::new(n as nat, |i: int| day_line(a@[i]))
        },
        _ => Seq::empty(),
    }
}

/// The report extracted from a parsed reply, or the error text.
pub open spec fn spec_report(out: Seq<u8>) -> Result<(Seq<char>, Seq<char>, Seq<char>, Seq<Seq<char>>), Seq<char>> {
    match spec_json_from_slice(out) {
        None => Err("bad weather JSON"@),
        Some(v) => spec_report_json(v),
    }
}

/// The report of a parsed reply, or the error text when it has no current condition.
pub open spec fn spec_report_json(v: Json) -> Result<(Seq<char>, Seq<char>, Seq<char>, Seq<Seq<char>>), Seq<char>> {
    match current_condition(v) {
        None => Err("no current_condition"@),
        Some(cur) => Ok(
            (
                str_or(cur, "temp_C"@, "--"@) + "°C (feels "@ + str_or(cur, "FeelsLikeC"@, "--"@)
                    + ")"@,
                desc_of(cur),
                "Humidity "@ + str_or(cur, "humidity"@, "--"@) + "%"@,
                forecast_lines(v),
            ),
        ),
    }
}

/// The texts of a report.
pub open spec fn report_view(r: Result<WeatherReport, String>) -> Result<(Seq<char>, Seq<char>, Seq<char>, Seq<Seq<char>>), Seq<char>> {
    match r {
        Ok(w) => Ok((w.temp@, w.desc@, w.hum@, texts(w.forecast@))),
        Err(e) => Err(e@),
    }
}

fn current_condition_exec(v: &Json) -> (r: Option<&Json>)
    ensures
        match r {
            Some(x) => current_condition(*v) == Some(*x),
            None => current_condition(*v) is None,
        },
{
    match v.get_member("current_condition") {
        Some(c) => match c {
            Json::Object(_) => c.get_member("0"),
            Json::Array(_) => c.element(0),
            _ => None,
        },
        None => None,
    }
}

/// Extracts the report from the fetch command's standard output.
pub fn report_from_output(out: &[u8]) -> (r: Result<WeatherReport, String>)
    ensures
        report_view(r) == spec_report(out@),
{
    match json_from_slice(out) {
        Some(v) => report_from_json(&v),
        None => Err(String::from_str("bad weather JSON")),
    }
}

/// Extracts the report from the parsed reply.
pub fn report_from_json(v: &Json) -> (r: Result<WeatherReport, String>)
    ensures
        report_view(r) == spec_report_json(*v),
{
    let cur = match current_condition_exec(v) {
        Some(c) => c,
        None => {
            return Err(String::from_str("no current_condition"));
        },
    };
    let mut temp: Vec<char> = str_or_exec(cur, "temp_C", "--");
    push_str(&mut temp, "°C (feels ");
    let feels = str_or_exec(cur, "FeelsLikeC", "--");
    push_all(&mut temp, &feels);
    push_str(&mut temp, ")");
    let desc: Vec<char> = match cur.get_member("weatherDesc") {
        Some(d) => match d.element(0) {
            Some(d0) => str_or_exec(d0, "value", ""),
            None => Vec::new(),
        },
        None => Vec::new(),
    };
    let mut hum: Vec<char> = Vec::new();
    push_str(&mut hum, "Humidity ");
    let h = str_or_exec(cur, "humidity", "--");
    push_all(&mut hum, &h);
    push_str(&mut hum, "%");
    let mut forecast: Vec<String> = Vec::new();
    match v.get_member("weather") {
        Some(w) => match w {
            Json::Array(a) => {
                let n: usize = if a.len() < 3 {
                    a.len()
                } else {
                    3
                };
                let mut i: usize = 0;
                while i < n
                    invariant
                        n <= a.len(),
                        n == if a@.len() < 3 {
                            a@.len() as int
                        } else {
                            3
                        },
                        i <= n,
                        texts(forecast@) == Seq::new(i as nat, |k: int| day_line(a@[k])),
                    decreases n - i,
                {
                    let d = &a[i];
                    let mut line = str_or_exec(d, "date", "");
                    push_str(&mut line, " ");
                    let hi = str_or_exec(d, "maxtempC", "--");
                    push_all(&mut line, &hi);
                    push_str(&mut line, "°/");
                    let lo = str_or_exec(d, "mintempC", "--");
                    push_all(&mut line, &lo);
                    push_str(&mut line, "°");
                    assert(line@ =~= day_line(a@[i as int]));
                    let ghost before = texts(forecast@);
                    forecast.push(string_of(line.as_slice()));
                    assert(texts(forecast@) =~= before.push(day_line(a@[i as int])));
                    assert(texts(forecast@) =~= Seq::new((i + 1) as nat, |k: int| day_line(a@[k])));
                    i = i + 1;
                }
            },
            _ => {},
        },
        None => {},
    }
    let r = WeatherReport {
        temp: string_of(temp.as_slice()),
        desc: string_of(desc.as_slice()),
        hum: string_of(hum.as_slice()),
        forecast,
    };
    assert(texts(r.forecast@) =~= forecast_lines(*v));
    Ok(r)
}

/// The cache document of a report: a JSON object with the members `desc`,
/// `forecast` (array of strings), `hum` and `temp`, in that order, compact.
pub open spec fn spec_cache_text(temp: Seq<char>, desc: Seq<char>, hum: Seq<char>, forecast: Seq<Seq<char>>) -> Seq<char> {
    "{\"desc\":"@ + json_quote(desc) + ",\"forecast\":["@ + join(
        forecast.map_values(|f: Seq<char>| json_quote(f)),
        ","@,
    ) + "],\"hum\":"@ + json_quote(hum) + ",\"temp\":"@ + json_quote(temp) + "}"@
}

impl WeatherReport {
    /// `temp — desc — hum`, then the forecast lines joined by ` · `.
    pub fn summary(&self) -> (r: String)
        ensures
            r@ == self.temp@ + " — "@ + self.desc@ + " — "@ + self.hum@ + "\n"@ + join(
                texts(self.forecast@),
                " · "@,
            ),
    {
        let mut lines: Vec<Vec<char>> = Vec::new();
        let mut i: usize = 0;
        while i < self.forecast.len()
            invariant
                i <= self.forecast.len(),
                lines@.map_values(|w: Vec<char>| w@) == texts(self.forecast@.take(i as int)),
            decreases self.forecast.len() - i,
        {
            let ghost before = lines@.map_values(|w: Vec<char>| w@);
            lines.push(chars_of(self.forecast[i].as_str()));
            assert(lines@.map_values(|w: Vec<char>| w@) =~= before.push(self.forecast@[i as int]@));
            assert(self.forecast@.take(i + 1) =~= self.forecast@.take(i as int).push(self.forecast@[i as int]));
            assert(lines@.map_values(|w: Vec<char>| w@) =~= texts(self.forecast@.take(i + 1)));
            i = i + 1;
        }
        assert(self.forecast@.take(self.forecast.len() as int) =~= self.forecast@);
        let sep = chars_of(" · ");
        let fc = join_chars(&lines, &sep);
        let mut out: Vec<char> = Vec::new();
        push_str(&mut out, self.temp.as_str());
        push_str(&mut out, " — ");
        push_str(&mut out, self.desc.as_str());
        push_str(&mut out, " — ");
        push_str(&mut out, self.hum.as_str());
        push_str(&mut out, "\n");
        push_all(&mut out, &fc);
        string_of(out.as_slice())
    }

    /// The text written to the cache file.
    pub fn cache_text(&self) -> (r: String)
        ensures
            r@ == spec_cache_text(self.temp@, self.desc@, self.hum@, texts(self.forecast@)),
    {
        let mut quoted: Vec<Vec<char>> = Vec::new();
        let mut i: usize = 0;
        while i < self.forecast.len()
            invariant
                i <= self.forecast.len(),
                quoted@.map_values(|w: Vec<char>| w@) == texts(self.forecast@.take(i as int)).map_values(
                    |f: Seq<char>| json_quote(f),
                ),
            decreases self.forecast.len() - i,
        {
            let ghost before = quoted@.map_values(|w: Vec<char>| w@);
            let q = json_string(self.forecast[i].as_str());
            let qc = chars_of(q.as_str());
            quoted.push(qc);
            assert(quoted@.map_values(|w: Vec<char>| w@) =~= before.push(qc@));
            assert(self.forecast@.take(i + 1) =~= self.forecast@.take(i as int).push(self.forecast@[i as int]));
            assert(texts(self.forecast@.take(i + 1)).map_values(|f: Seq<char>| json_quote(f)) =~= texts(
                self.forecast@.take(i as int),
            ).map_values(|f: Seq<char>| json_quote(f)).push(json_quote(self.forecast@[i as int]@)));
            i = i + 1;
        }
        assert(self.forecast@.take(self.forecast.len() as int) =~= self.forecast@);
        let comma = chars_of(",");
        let fc = join_chars(&quoted, &comma);
        let mut out: Vec<char> = Vec::new();
        push_str(&mut out, "{\"desc\":");
        push_str(&mut out, json_string(self.desc.as_str()).as_str());
        push_str(&mut out, ",\"forecast\":[");
        push_all(&mut out, &fc);
        push_str(&mut out, "],\"hum\":");
        push_str(&mut out, json_string(self.hum.as_str()).as_str());
        push_str(&mut out, ",\"temp\":");
        push_str(&mut out, json_string(self.temp.as_str()).as_str());
        push_str(&mut out, "}");
        string_of(out.as_slice())
    }
}

} // verus!
