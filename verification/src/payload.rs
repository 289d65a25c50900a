//! The notification payload parser: a total function from the payload
//! string to `(routing key, optional headers, body)`.
//!
//! The payload is split on `|` into at most three fields and every field is
//! trimmed.  With three fields the middle one is read as a header segment:
//! entries separated by `;`, each entry a name, `:`, and a `,`-separated
//! list of values, whitespace trimmed at every separator; an entry without
//! `:` is skipped.  With two fields there are no headers; with one field
//! the whole payload is the body and the routing key is empty.

use vstd::prelude::*;
use vstd::string::*;

use crate::text::find_char;
use crate::text::chars_to_string;
use crate::text::split_all;
use crate::text::split_full;
use crate::text::splitn;
use crate::text::sub_chars;
use crate::text::to_chars;
use crate::text::trim_chars;
use crate::text::trimmed;
use crate::text::lemma_splitn_at;
use crate::text::lemma_splitn_no_sep;

verus! {

/// One parsed header: a name with its ordered list of values.
#[derive(Debug, Clone, PartialEq, Eq)]
pub struct HeaderEntry {
    pub name: String,
    pub values: Vec<String>,
}

/// Spec-level image of a header entry.
#[verifier::ext_equal]
pub struct HeaderV {
    pub name: Seq<char>,
    pub values: Seq<Seq<char>>,
}

impl View for HeaderEntry {
    type V = HeaderV;

    open spec fn view(&self) -> HeaderV {
        HeaderV { name: self.name@, values: self.values.deep_view() }
    }
}

impl DeepView for HeaderEntry {
    type V = HeaderV;

    open spec fn deep_view(&self) -> HeaderV {
        self.view()
    }
}

/// A parsed notification payload.
#[derive(Debug, Clone, PartialEq, Eq)]
pub struct ParsedPayload {
    pub routing_key: String,
    pub headers: Option<Vec<HeaderEntry>>,
    pub body: String,
}

/// Spec-level image of a parsed payload.
#[verifier::ext_equal]
pub struct PayloadV {
    pub routing_key: Seq<char>,
    pub headers: Option<Seq<HeaderV>>,
    pub body: Seq<char>,
}

impl View for ParsedPayload {
    type V = PayloadV;

    open spec fn view(&self) -> PayloadV {
        PayloadV {
            routing_key: self.routing_key@,
            headers: match self.headers {
                Some(ref hs) => Some(hs.deep_view()),
                None => None,
            },
            body: self.body@,
        }
    }
}

/// One header entry parsed from `entry`: the text before the first `:`,
/// trimmed, is the name; the text after it, split on `,` with each value
/// trimmed, is the value list.  An entry without `:` is skipped.
pub open spec fn spec_parse_header_entry(entry: Seq<char>) -> Option<HeaderV> {
    let parts = splitn(entry, ':', 2);
    if parts.len() == 2 {
        Some(
            HeaderV {
                name: trimmed(parts[0]),
                values: split_full(trimmed(parts[1]), ',').map_values(|v: Seq<char>| trimmed(v)),
            },
        )
    } else {
        None
    }
}

/// The headers read from the trimmed components of a header segment, in
/// order of appearance, entries without `:` skipped.
pub open spec fn spec_headers_of(components: Seq<Seq<char>>) -> Seq<HeaderV>
    decreases components.len(),
{
    if components.len() == 0 {
        Seq::empty()
    } else {
        let rest = spec_headers_of(components.drop_first());
        match spec_parse_header_entry(trimmed(components[0])) {
            Some(hv) => seq![hv] + rest,
            None => rest,
        }
    }
}

/// The header map of segment `h`: `h` split on `;`, each entry split on its
/// first `:` into a name and a `,`-separated value list, whitespace trimmed
/// at every separator.
pub open spec fn spec_parse_headers(h: Seq<char>) -> Seq<HeaderV> {
    spec_headers_of(split_full(h, ';'))
}

/// What parsing a payload yields: the payload split on `|` into at most
/// three trimmed fields; three fields are key, headers, body; two are key
/// and body; a payload without `|` is all body.
pub open spec fn spec_parse_notification(p: Seq<char>) -> PayloadV {
    let parts = splitn(p, '|', 3);
    if parts.len() == 3 {
        PayloadV {
            routing_key: trimmed(parts[0]),
            headers: Some(spec_parse_headers(trimmed(parts[1]))),
            body: trimmed(parts[2]),
        }
    } else if parts.len() == 2 {
        PayloadV { routing_key: trimmed(parts[0]), headers: None, body: trimmed(parts[1]) }
    } else {
        PayloadV { routing_key: Seq::empty(), headers: None, body: trimmed(parts[0]) }
    }
}

proof fn lemma_headers_of_push(components: Seq<Seq<char>>, x: Seq<char>)
    ensures
        spec_headers_of(components.push(x)) == spec_headers_of(components) + (
        match spec_parse_header_entry(trimmed(x)) {
            Some(hv) => seq![hv],
            None => Seq::<HeaderV>::empty(),
        }),
    decreases components.len(),
{
    let piece = (match spec_parse_header_entry(trimmed(x)) {
        Some(hv) => seq![hv],
        None => Seq::<HeaderV>::empty(),
    });
    if components.len() == 0 {
        assert(components.push(x)[0] == x);
        assert(components.push(x).drop_first() =~= Seq::<Seq<char>>::empty());
        assert(spec_headers_of(Seq::<Seq<char>>::empty()) == Seq::<HeaderV>::empty());
        match spec_parse_header_entry(trimmed(x)) {
            Some(hv) => {
                assert(spec_headers_of(components.push(x)) == seq![hv] + Seq::<HeaderV>::empty());
                assert(seq![hv] + Seq::<HeaderV>::empty() =~= seq![hv]);
                assert(spec_headers_of(components) + piece =~= piece);
            },
            None => {
                assert(spec_headers_of(components.push(x)) == Seq::<HeaderV>::empty());
                assert(spec_headers_of(components) + piece =~= piece);
            },
        }
    } else {
        assert(components.push(x)[0] == components[0]);
        assert(components.push(x).drop_first() =~= components.drop_first().push(x));
        lemma_headers_of_push(components.drop_first(), x);
        let rest = spec_headers_of(components.drop_first());
        match spec_parse_header_entry(trimmed(components[0])) {
            Some(hv) => {
                assert(seq![hv] + (rest + piece) =~= (seq![hv] + rest) + piece);
            },
            None => {},
        }
    }
}

/// The header entries of the already-extracted header segment `h`.
fn parse_headers(h: &Vec<char>) -> (r: Vec<HeaderEntry>)
    ensures
        r.deep_view() == spec_parse_headers(h@),
{
    let comps = split_all(h, ';');
    let mut r: Vec<HeaderEntry> = Vec::new();
    let mut i: usize = 0;
    proof {
        assert(comps.deep_view().take(0) =~= Seq::<Seq<char>>::empty());
        assert(r.deep_view() =~= spec_headers_of(comps.deep_view().take(0)));
    }
    while i < comps.len()
        invariant
            i <= comps.len(),
            comps.deep_view() == split_full(h@, ';'),
            comps.deep_view().len() == comps.len(),
            r.deep_view() == spec_headers_of(comps.deep_view().take(i as int)),
        decreases comps.len() - i,
    {
        let ghost prev = r.deep_view();
        let c = trim_chars(&comps[i]);
        proof {
            crate::text::lemma_deep_view_index(&comps, i as int);
            assert(c@ == trimmed(comps.deep_view()[i as int]));
        }
        let ghost entry_spec = spec_parse_header_entry(c@);
        match find_char(&c, ':', 0) {
            Some(p) => {
                proof {
                    lemma_splitn_at(c@, ':', p as int, 2);
                    assert(splitn(c@.skip(p + 1), ':', 1) == seq![c@.skip(p + 1)]);
                    assert(splitn(c@, ':', 2) =~~= seq![c@.take(p as int), c@.skip(p + 1)]);
                }
                let name_chars = trim_chars(&sub_chars(&c, 0, p));
                let vals_src = trim_chars(&sub_chars(&c, p + 1, c.len()));
                proof {
                    assert(c@.take(p as int) =~= c@.subrange(0, p as int));
                    assert(c@.skip(p + 1) =~= c@.subrange(p + 1, c@.len() as int));
                    assert(name_chars@ == trimmed(splitn(c@, ':', 2)[0]));
                    assert(vals_src@ == trimmed(splitn(c@, ':', 2)[1]));
                }
                let parts = split_all(&vals_src, ',');
                let ghost vals_spec = split_full(vals_src@, ',').map_values(
                    |v: Seq<char>| trimmed(v),
                );
                let mut values: Vec<String> = Vec::new();
                let mut j: usize = 0;
                proof {
                    assert(values.deep_view() =~~= vals_spec.take(0));
                }
                while j < parts.len()
                    invariant
                        j <= parts.len(),
                        parts.deep_view() == split_full(vals_src@, ','),
                        parts.deep_view().len() == parts.len(),
                        vals_spec == split_full(vals_src@, ',').map_values(
                            |v: Seq<char>| trimmed(v),
                        ),
                        values.deep_view() == vals_spec.take(j as int),
                    decreases parts.len() - j,
                {
                    let ghost vprev = values.deep_view();
                    proof {
                        crate::text::lemma_deep_view_index(&parts, j as int);
                    }
                    values.push(chars_to_string(&trim_chars(&parts[j])));
                    j = j + 1;
                    proof {
                        assert(values.deep_view() =~~= vprev.push(trimmed(parts@[j - 1]@)));
                        assert(vals_spec[j - 1] == trimmed(parts.deep_view()[j - 1]));
                        assert(values.deep_view() =~~= vals_spec.take(j as int));
                    }
                }
                proof {
                    assert(values.deep_view() =~~= vals_spec);
                }
                let entry = HeaderEntry { name: chars_to_string(&name_chars), values };
                proof {
                    assert(entry@ =~~= HeaderV {
                        name: trimmed(splitn(c@, ':', 2)[0]),
                        values: split_full(trimmed(splitn(c@, ':', 2)[1]), ',').map_values(
                            |v: Seq<char>| trimmed(v),
                        ),
                    });
                    assert(entry_spec == Some(entry@));
                }
                r.push(entry);
                proof {
                    assert(r.deep_view() =~~= prev.push(entry@));
                }
            },
            None => {
                proof {
                    lemma_splitn_no_sep(c@, ':', 2);
                    assert(entry_spec is None);
                }
            },
        }
        i = i + 1;
        proof {
            let cv = comps.deep_view();
            assert(cv.take(i as int) =~= cv.take(i - 1).push(cv[i - 1]));
            lemma_headers_of_push(cv.take(i - 1), cv[i - 1]);
        }
    }
    proof {
        assert(comps.deep_view().take(comps.deep_view().len() as int) =~= comps.deep_view());
    }
    r
}

/// Round trip: for `k` and `m` free of `|`, the payload `k|m` parses to
/// routing key `k` and body `m` (both trimmed) with no headers, and `m`
/// alone parses to an empty routing key and body `m`.
pub proof fn lemma_round_trip(k: Seq<char>, m: Seq<char>)
    requires
        forall|i: int| 0 <= i < k.len() ==> k[i] != '|',
        forall|i: int| 0 <= i < m.len() ==> m[i] != '|',
    ensures
        spec_parse_notification(k + seq!['|'] + m) == (PayloadV {
            routing_key: trimmed(k),
            headers: None,
            body: trimmed(m),
        }),
        spec_parse_notification(m) == (PayloadV {
            routing_key: Seq::empty(),
            headers: None,
            body: trimmed(m),
        }),
{
    let s = k + seq!['|'] + m;
    assert(s[k.len() as int] == '|');
    lemma_splitn_at(s, '|', k.len() as int, 3);
    assert(s.take(k.len() as int) =~= k);
    assert(s.skip(k.len() as int + 1) =~= m);
    lemma_splitn_no_sep(m, '|', 2);
    assert(splitn(s, '|', 3) =~~= seq![k, m]);
    lemma_splitn_no_sep(m, '|', 3);
}

/// Header fidelity: for `k` and `h` free of `|`, the payload `k|h|m`
/// parses to routing key `k`, body `m`, and exactly the header map read
/// from `h`: `h` split on `;`, each entry split on its first `:` into a
/// name and a `,`-separated value list, whitespace trimmed at every
/// separator, values kept as ordered lists.
pub proof fn lemma_header_fidelity(k: Seq<char>, h: Seq<char>, m: Seq<char>)
    requires
        forall|i: int| 0 <= i < k.len() ==> k[i] != '|',
        forall|i: int| 0 <= i < h.len() ==> h[i] != '|',
    ensures
        spec_parse_notification(k + seq!['|'] + h + seq!['|'] + m) == (PayloadV {
            routing_key: trimmed(k),
            headers: Some(spec_parse_headers(trimmed(h))),
            body: trimmed(m),
        }),
{
    let s = k + seq!['|'] + h + seq!['|'] + m;
    let t = h + seq!['|'] + m;
    assert(s[k.len() as int] == '|');
    assert(forall|i: int| 0 <= i < k.len() ==> s[i] == k[i]);
    lemma_splitn_at(s, '|', k.len() as int, 3);
    assert(s.take(k.len() as int) =~= k);
    assert(s.skip(k.len() as int + 1) =~= t);
    assert(t[h.len() as int] == '|');
    assert(forall|i: int| 0 <= i < h.len() ==> t[i] == h[i]);
    lemma_splitn_at(t, '|', h.len() as int, 2);
    assert(t.take(h.len() as int) =~= h);
    assert(t.skip(h.len() as int + 1) =~= m);
    assert(splitn(m, '|', 1) == seq![m]);
    assert(splitn(s, '|', 3) =~~= seq![k, h, m]);
}

/// Parse one notification payload; total over all strings.
pub fn parse_notification(payload: &str) -> (r: ParsedPayload)
    ensures
        r@ == spec_parse_notification(payload@),
{
    let chars = to_chars(payload);
    match find_char(&chars, '|', 0) {
        None => {
            proof {
                lemma_splitn_no_sep(chars@, '|', 3);
            }
            ParsedPayload {
                routing_key: String::new(),
                headers: None,
                body: chars_to_string(&trim_chars(&chars)),
            }
        },
        Some(i) => {
            proof {
                lemma_splitn_at(chars@, '|', i as int, 3);
                assert(chars@.take(i as int) =~= chars@.subrange(0, i as int));
            }
            let routing_key = chars_to_string(&trim_chars(&sub_chars(&chars, 0, i)));
            let ghost tail = chars@.skip(i + 1);
            match find_char(&chars, '|', i + 1) {
                None => {
                    proof {
                        assert(forall|j: int| 0 <= j < tail.len() ==> tail[j] != '|');
                        lemma_splitn_no_sep(tail, '|', 2);
                        assert(tail =~= chars@.subrange(i + 1, chars@.len() as int));
                    }
                    ParsedPayload {
                        routing_key,
                        headers: None,
                        body: chars_to_string(&trim_chars(&sub_chars(&chars, i + 1, chars.len()))),
                    }
                },
                Some(j) => {
                    proof {
                        assert(tail[j - i - 1] == '|');
                        assert(forall|k: int| 0 <= k < j - i - 1 ==> tail[k] != '|');
                        lemma_splitn_at(tail, '|', j - i - 1, 2);
                        assert(tail.take(j - i - 1) =~= chars@.subrange(i + 1, j as int));
                        assert(tail.skip(j - i) =~= chars@.subrange(j + 1, chars@.len() as int));
                    }
                    let header_src = trim_chars(&sub_chars(&chars, i + 1, j));
                    let headers = parse_headers(&header_src);
                    ParsedPayload {
                        routing_key,
                        headers: Some(headers),
                        body: chars_to_string(&trim_chars(&sub_chars(&chars, j + 1, chars.len()))),
                    }
                },
            }
        },
    }
}

} // verus!
