//! The bridge-channel configuration language and the process configuration.
//!
//! `BRIDGE_CHANNELS` is a comma-separated list of items, each
//! `pg_channel:amqp_entity`; whitespace around either name is trimmed, and
//! items that lack either name are discarded.  Parsing fails when nothing
//! is left, or when two kept bindings share a PostgreSQL channel; otherwise
//! it yields the bindings sorted by `(pg_channel, amqp_entity)`.

use vstd::prelude::*;
use vstd::string::*;
use vstd::multiset::Multiset;

use crate::text::chars_to_string;
use crate::text::lemma_deep_view_index;
use crate::text::lemma_lex_le_antisymmetric;
use crate::text::lemma_lex_le_total;
use crate::text::lemma_lex_le_transitive;
use crate::text::lex_le;
use crate::text::lex_le_str;
use crate::text::split_all;
use crate::text::split_full;
use crate::text::str_eq;
use crate::text::to_chars;
use crate::text::trim_chars;
use crate::text::trimmed;

verus! {

broadcast use
    {vstd::seq_lib::group_to_multiset_ensures, vstd::seq_lib::group_filter_ensures,
    vstd::multiset::group_multiset_axioms};

/// The pairing of one PostgreSQL `LISTEN` channel with one AMQP entity.
#[derive(Debug, Clone, PartialEq, Eq)]
pub struct Binding {
    pub pg_channel: String,
    pub amqp_entity: String,
}

/// Spec-level image of a binding.
#[verifier::ext_equal]
pub struct BindingV {
    pub pg_channel: Seq<char>,
    pub amqp_entity: Seq<char>,
}

impl View for Binding {
    type V = BindingV;

    open spec fn view(&self) -> BindingV {
        BindingV { pg_channel: self.pg_channel@, amqp_entity: self.amqp_entity@ }
    }
}

impl DeepView for Binding {
    type V = BindingV;

    open spec fn deep_view(&self) -> BindingV {
        self.view()
    }
}

/// The errors configuration parsing can report.
#[derive(Debug, Clone, Copy, PartialEq, Eq)]
pub enum ConfigError {
    /// No item of `BRIDGE_CHANNELS` kept both a channel and an entity.
    NoBindings,
    /// Two kept bindings name the same PostgreSQL channel.
    DuplicateChannel,
    /// `DELIVERY_MODE` is neither `PERSISTENT` nor `NON-PERSISTENT`.
    InvalidDeliveryMode,
}

// ---------------------------------------------------------------------------
// What one configuration string means
// ---------------------------------------------------------------------------

/// The binding written in one comma-separated item: the text before the
/// first `:` names the channel, the text between the first and second `:`
/// names the entity; both are trimmed, and a missing entity is empty.
pub open spec fn spec_raw_binding(item: Seq<char>) -> BindingV {
    let fields = split_full(item, ':');
    BindingV {
        pg_channel: trimmed(fields[0]),
        amqp_entity: if fields.len() >= 2 {
            trimmed(fields[1])
        } else {
            Seq::empty()
        },
    }
}

/// Every item of the configuration string, in order, unfiltered.
pub open spec fn spec_raw_bindings(s: Seq<char>) -> Seq<BindingV> {
    split_full(s, ',').map_values(|item: Seq<char>| spec_raw_binding(item))
}

/// A binding is kept only when both of its names are non-empty.
pub open spec fn binding_nonempty(b: BindingV) -> bool {
    b.pg_channel.len() > 0 && b.amqp_entity.len() > 0
}

/// The bindings the configuration keeps, in order of appearance.
pub open spec fn spec_kept_bindings(s: Seq<char>) -> Seq<BindingV> {
    spec_raw_bindings(s).filter(|b: BindingV| binding_nonempty(b))
}

/// Whether two bindings somewhere in `bs` share a PostgreSQL channel.
pub open spec fn has_duplicate_channel(bs: Seq<BindingV>) -> bool {
    exists|i: int, j: int|
        0 <= i < j < bs.len() && bs[i].pg_channel == bs[j].pg_channel
}

/// The order bindings are sorted in: by channel, then by entity.
pub open spec fn binding_le(a: BindingV, b: BindingV) -> bool {
    if a.pg_channel == b.pg_channel {
        lex_le(a.amqp_entity, b.amqp_entity)
    } else {
        lex_le(a.pg_channel, b.pg_channel)
    }
}

/// Whether `bs` is sorted by `(pg_channel, amqp_entity)`.
pub open spec fn bindings_sorted(bs: Seq<BindingV>) -> bool {
    forall|i: int, j: int| 0 <= i < j < bs.len() ==> binding_le(bs[i], bs[j])
}

pub proof fn lemma_binding_le_total(a: BindingV, b: BindingV)
    ensures
        binding_le(a, b) || binding_le(b, a),
{
    if a.pg_channel == b.pg_channel {
        lemma_lex_le_total(a.amqp_entity, b.amqp_entity);
    } else {
        lemma_lex_le_total(a.pg_channel, b.pg_channel);
    }
}

pub proof fn lemma_binding_le_antisymmetric(a: BindingV, b: BindingV)
    requires
        binding_le(a, b),
        binding_le(b, a),
    ensures
        a == b,
{
    if a.pg_channel == b.pg_channel {
        lemma_lex_le_antisymmetric(a.amqp_entity, b.amqp_entity);
        assert(a =~= b);
    } else {
        lemma_lex_le_antisymmetric(a.pg_channel, b.pg_channel);
    }
}

pub proof fn lemma_binding_le_transitive(a: BindingV, b: BindingV, c: BindingV)
    requires
        binding_le(a, b),
        binding_le(b, c),
    ensures
        binding_le(a, c),
{
    if a.pg_channel == b.pg_channel && b.pg_channel == c.pg_channel {
        lemma_lex_le_transitive(a.amqp_entity, b.amqp_entity, c.amqp_entity);
    } else if a.pg_channel == b.pg_channel {
        assert(binding_le(a, c));
    } else if b.pg_channel == c.pg_channel {
        assert(binding_le(a, c));
    } else {
        lemma_lex_le_transitive(a.pg_channel, b.pg_channel, c.pg_channel);
        if a.pg_channel == c.pg_channel {
            lemma_lex_le_antisymmetric(a.pg_channel, b.pg_channel);
        }
    }
}

// ---------------------------------------------------------------------------
// Exec comparison and view bridging
// ---------------------------------------------------------------------------

/// Whether `a` comes at or before `b` in the binding order.
fn binding_le_exec(a: &Binding, b: &Binding) -> (r: bool)
    ensures
        r == binding_le(a@, b@),
{
    if str_eq(a.pg_channel.as_str(), b.pg_channel.as_str()) {
        lex_le_str(a.amqp_entity.as_str(), b.amqp_entity.as_str())
    } else {
        lex_le_str(a.pg_channel.as_str(), b.pg_channel.as_str())
    }
}

proof fn lemma_bindings_deep_view_index(v: &Vec<Binding>, i: int)
    requires
        0 <= i < v@.len(),
    ensures
        v.deep_view().len() == v@.len(),
        v.deep_view()[i] == v@[i]@,
{
}

// ---------------------------------------------------------------------------
// Duplicate channels survive reordering
// ---------------------------------------------------------------------------

proof fn lemma_count_at_least_two(s: Seq<BindingV>, i: int, j: int)
    requires
        0 <= i < j < s.len(),
        s[i] == s[j],
    ensures
        s.to_multiset().count(s[i]) >= 2,
{
    let t = s.remove(j);
    s.remove_ensures(j);
    assert(t[i] == s[i]);
    assert(t.contains(s[i]));
    assert(t.to_multiset().count(s[i]) > 0);
    assert(t.to_multiset() == s.to_multiset().remove(s[j]));
}

proof fn lemma_two_indices(s: Seq<BindingV>, v: BindingV)
    requires
        s.to_multiset().count(v) >= 2,
    ensures
        exists|i: int, j: int| 0 <= i < j < s.len() && s[i] == v && s[j] == v,
{
    assert(s.contains(v));
    let i = choose|i: int| 0 <= i < s.len() && s[i] == v;
    let t = s.remove(i);
    s.remove_ensures(i);
    assert(t.to_multiset() == s.to_multiset().remove(v));
    assert(t.to_multiset().count(v) >= 1);
    assert(t.contains(v));
    let k = choose|k: int| 0 <= k < t.len() && t[k] == v;
    if k < i {
        assert(s[k] == v && s[i] == v && k < i);
    } else {
        assert(s[k + 1] == v && s[i] == v && i < k + 1);
    }
}

/// Two sequences with the same bindings either both hold a duplicated
/// channel or neither does, whatever their order.
proof fn lemma_dup_channel_transfer(a: Seq<BindingV>, b: Seq<BindingV>)
    requires
        a.to_multiset() == b.to_multiset(),
        has_duplicate_channel(a),
    ensures
        has_duplicate_channel(b),
{
    let (i, j): (int, int) = choose|i: int, j: int|
        0 <= i < j < a.len() && a[i].pg_channel == a[j].pg_channel;
    if a[i] == a[j] {
        lemma_count_at_least_two(a, i, j);
        lemma_two_indices(b, a[i]);
    } else {
        assert(a.contains(a[i]));
        assert(a.contains(a[j]));
        assert(b.to_multiset().count(a[i]) > 0);
        assert(b.to_multiset().count(a[j]) > 0);
        assert(b.contains(a[i]));
        assert(b.contains(a[j]));
        let p = choose|p: int| 0 <= p < b.len() && b[p] == a[i];
        let q = choose|q: int| 0 <= q < b.len() && b[q] == a[j];
        assert(p != q);
        if p < q {
            assert(b[p].pg_channel == b[q].pg_channel);
        } else {
            assert(b[q].pg_channel == b[p].pg_channel);
        }
    }
}

// ---------------------------------------------------------------------------
// Sorting
// ---------------------------------------------------------------------------

/// A sorted arrangement of a given collection of bindings is unique.
pub proof fn lemma_sorted_unique(a: Seq<BindingV>, b: Seq<BindingV>)
    requires
        bindings_sorted(a),
        bindings_sorted(b),
        a.to_multiset() == b.to_multiset(),
    ensures
        a == b,
    decreases a.len(),
{
    if a.len() == 0 {
        assert(b.to_multiset().len() == 0);
        assert(a =~= b);
    } else {
        assert(a.to_multiset().len() == a.len());
        assert(b.to_multiset().len() == b.len());
        assert(b.len() == a.len());
        assert(b.contains(b[0]));
        assert(a.to_multiset().count(b[0]) > 0);
        assert(a.contains(b[0]));
        let k = choose|k: int| 0 <= k < a.len() && a[k] == b[0];
        lemma_binding_le_total(a[0], a[0]);
        lemma_binding_le_total(b[0], b[0]);
        assert(binding_le(a[0], b[0]));
        assert(a.contains(a[0]));
        assert(b.to_multiset().count(a[0]) > 0);
        assert(b.contains(a[0]));
        let m = choose|m: int| 0 <= m < b.len() && b[m] == a[0];
        assert(binding_le(b[0], a[0]));
        lemma_binding_le_antisymmetric(a[0], b[0]);
        let a1 = a.remove(0);
        let b1 = b.remove(0);
        a.remove_ensures(0);
        b.remove_ensures(0);
        assert(a1.to_multiset() == a.to_multiset().remove(a[0]));
        assert(b1.to_multiset() == b.to_multiset().remove(b[0]));
        assert(a1.to_multiset() == b1.to_multiset());
        assert(bindings_sorted(a1)) by {
            assert forall|i: int, j: int| 0 <= i < j < a1.len() implies binding_le(
                a1[i],
                a1[j],
            ) by {
                assert(a1[i] == a[i + 1]);
                assert(a1[j] == a[j + 1]);
            }
        }
        assert(bindings_sorted(b1)) by {
            assert forall|i: int, j: int| 0 <= i < j < b1.len() implies binding_le(
                b1[i],
                b1[j],
            ) by {
                assert(b1[i] == b[i + 1]);
                assert(b1[j] == b[j + 1]);
            }
        }
        lemma_sorted_unique(a1, b1);
        assert forall|x: int| 0 <= x < a.len() implies a[x] == b[x] by {
            if x > 0 {
                assert(a1[x - 1] == a[x]);
                assert(b1[x - 1] == b[x]);
            }
        }
        assert(a =~= b);
    }
}

/// Insert one binding into a sorted vector, keeping it sorted.
fn insert_sorted(r: &mut Vec<Binding>, b: Binding)
    requires
        bindings_sorted(old(r).deep_view()),
    ensures
        bindings_sorted(final(r).deep_view()),
        final(r).deep_view().to_multiset() == old(r).deep_view().to_multiset().insert(b@),
{
    let ghost dv0 = r.deep_view();
    let mut p: usize = 0;
    while p < r.len() && binding_le_exec(&r[p], &b)
        invariant
            p <= r@.len(),
            r.deep_view() == dv0,
            dv0.len() == r@.len(),
            bindings_sorted(dv0),
            forall|k: int| 0 <= k < p ==> binding_le(dv0[k], b@),
            forall|k: int| 0 <= k < r@.len() ==> dv0[k] == r@[k]@,
        decreases r@.len() - p,
    {
        p = p + 1;
    }
    let ghost pos = p as int;
    proof {
        if pos < dv0.len() {
            assert(!binding_le(dv0[pos], b@));
            lemma_binding_le_total(dv0[pos], b@);
            assert(binding_le(b@, dv0[pos]));
        }
    }
    r.insert(p, b);
    proof {
        dv0.insert_ensures(pos, b@);
        assert(r.deep_view() =~~= dv0.insert(pos, b@));
        let dv = r.deep_view();
        assert forall|i: int, j: int| 0 <= i < j < dv.len() implies binding_le(dv[i], dv[j]) by {
            if j < pos {
                assert(dv[i] == dv0[i] && dv[j] == dv0[j]);
            } else if j == pos {
                assert(dv[i] == dv0[i]);
                assert(binding_le(dv0[i], b@));
            } else if i < pos {
                assert(dv[i] == dv0[i] && dv[j] == dv0[j - 1]);
                assert(binding_le(dv0[i], dv0[j - 1]));
            } else if i == pos {
                assert(dv[j] == dv0[j - 1]);
                assert(binding_le(b@, dv0[pos]));
                if j - 1 > pos {
                    lemma_binding_le_transitive(b@, dv0[pos], dv0[j - 1]);
                }
            } else {
                assert(dv[i] == dv0[i - 1] && dv[j] == dv0[j - 1]);
            }
        }
    }
}

/// Sort bindings by `(pg_channel, amqp_entity)`.
fn sort_bindings(input: Vec<Binding>) -> (r: Vec<Binding>)
    ensures
        bindings_sorted(r.deep_view()),
        r.deep_view().to_multiset() == input.deep_view().to_multiset(),
{
    let ghost orig = input.deep_view();
    let mut rest = input;
    let mut r: Vec<Binding> = Vec::new();
    proof {
        assert(r.deep_view() =~~= Seq::<BindingV>::empty());
        assert(Seq::<BindingV>::empty().to_multiset() =~= Multiset::<BindingV>::empty());
        assert(r.deep_view().to_multiset().add(rest.deep_view().to_multiset()) =~= orig.to_multiset());
    }
    while rest.len() > 0
        invariant
            bindings_sorted(r.deep_view()),
            r.deep_view().to_multiset().add(rest.deep_view().to_multiset()) == orig.to_multiset(),
        decreases rest@.len(),
    {
        let ghost rdv = r.deep_view();
        let ghost restdv = rest.deep_view();
        let b = rest.remove(0);
        proof {
            assert(rest.deep_view() =~~= restdv.remove(0));
            restdv.remove_ensures(0);
            assert(restdv[0] == b@);
            assert(rest.deep_view().to_multiset() == restdv.to_multiset().remove(b@));
            assert(restdv.contains(b@));
            assert(restdv.to_multiset().count(b@) > 0);
        }
        insert_sorted(&mut r, b);
        proof {
            assert(r.deep_view().to_multiset().add(rest.deep_view().to_multiset())
                =~= rdv.to_multiset().add(restdv.to_multiset()));
        }
    }
    proof {
        assert(rest.deep_view() =~~= Seq::<BindingV>::empty());
        assert(rest.deep_view().to_multiset() =~= Multiset::<BindingV>::empty());
        assert(r.deep_view().to_multiset() =~= orig.to_multiset());
    }
    r
}

// ---------------------------------------------------------------------------
// Parsing
// ---------------------------------------------------------------------------

/// The bindings the configuration text keeps, in order of appearance.
fn collect_bindings(chars: &Vec<char>) -> (kept: Vec<Binding>)
    ensures
        kept.deep_view() == spec_kept_bindings(chars@),
{
    let items = split_all(chars, ',');
    let ghost raw = spec_raw_bindings(chars@);
    let ghost pred = |b: BindingV| binding_nonempty(b);
    let mut kept: Vec<Binding> = Vec::new();
    let mut i: usize = 0;
    proof {
        assert(raw.take(0) =~= Seq::<BindingV>::empty());
        assert(kept.deep_view() =~~= raw.take(0).filter(pred));
    }
    while i < items.len()
        invariant
            i <= items.len(),
            items.deep_view() == split_full(chars@, ','),
            items.deep_view().len() == items.len(),
            raw == spec_raw_bindings(chars@),
            pred == (|b: BindingV| binding_nonempty(b)),
            raw.len() == items.len(),
            kept.deep_view() == raw.take(i as int).filter(pred),
        decreases items.len() - i,
    {
        let ghost prev = kept.deep_view();
        proof {
            lemma_deep_view_index(&items, i as int);
        }
        let fields = split_all(&items[i], ':');
        proof {
            crate::text::lemma_split_full_len(items@[i as int]@, ':');
            if fields@.len() >= 1 {
                lemma_deep_view_index(&fields, 0);
            }
            if fields@.len() >= 2 {
                lemma_deep_view_index(&fields, 1);
            }
        }
        let pg = trim_chars(&fields[0]);
        let entity = if fields.len() >= 2 {
            trim_chars(&fields[1])
        } else {
            Vec::new()
        };
        let ghost bv = spec_raw_binding(items.deep_view()[i as int]);
        proof {
            assert(bv.pg_channel == pg@);
            assert(bv.amqp_entity == entity@);
            assert(raw[i as int] == bv);
        }
        if pg.len() > 0 && entity.len() > 0 {
            let binding = Binding {
                pg_channel: chars_to_string(&pg),
                amqp_entity: chars_to_string(&entity),
            };
            proof {
                assert(binding@ =~= bv);
            }
            kept.push(binding);
            proof {
                assert(kept.deep_view() =~~= prev.push(bv));
            }
        }
        i = i + 1;
        proof {
            reveal(Seq::filter);
            assert(raw.take(i as int).drop_last() =~= raw.take(i - 1));
            assert(raw.take(i as int).last() == raw[i - 1]);
            assert(kept.deep_view() == raw.take(i as int).filter(pred));
        }
    }
    proof {
        assert(raw.take(raw.len() as int) =~= raw);
    }
    kept
}

/// Whether two bindings in `kept` share a PostgreSQL channel.
fn find_duplicate(kept: &Vec<Binding>) -> (r: bool)
    ensures
        r == has_duplicate_channel(kept.deep_view()),
{
    let n = kept.len();
    let ghost dv = kept.deep_view();
    proof {
        assert forall|k: int| 0 <= k < n implies dv[k] == kept@[k]@ by {
            lemma_bindings_deep_view_index(kept, k);
        }
    }
    let mut i: usize = 0;
    while i < n
        invariant
            i <= n,
            n == kept@.len(),
            dv == kept.deep_view(),
            dv.len() == n,
            forall|k: int| 0 <= k < n ==> dv[k] == kept@[k]@,
            forall|x: int, y: int|
                0 <= x < y < n && x < i ==> dv[x].pg_channel != dv[y].pg_channel,
        decreases n - i,
    {
        let mut j: usize = i + 1;
        while j < n
            invariant
                i < j <= n,
                i < n,
                n == kept@.len(),
                dv == kept.deep_view(),
                dv.len() == n,
                forall|k: int| 0 <= k < n ==> dv[k] == kept@[k]@,
                forall|y: int| i < y < j ==> dv[i as int].pg_channel != dv[y].pg_channel,
            decreases n - j,
        {
            if str_eq(kept[i].pg_channel.as_str(), kept[j].pg_channel.as_str()) {
                proof {
                    assert(dv[i as int].pg_channel == dv[j as int].pg_channel);
                }
                return true;
            }
            j = j + 1;
        }
        i = i + 1;
    }
    proof {
        assert(!has_duplicate_channel(dv));
    }
    false
}

/// Parse the `BRIDGE_CHANNELS` configuration string.
///
/// Every comma-separated item contributes a binding; items that lack a
/// channel or an entity after trimming are discarded.  If nothing is left
/// the parse fails with [`ConfigError::NoBindings`]; if two kept bindings
/// share a channel it fails with [`ConfigError::DuplicateChannel`];
/// otherwise the kept bindings are returned sorted by
/// `(pg_channel, amqp_entity)`.
pub fn parse_bridge_channels(bridge_channels: &str) -> (r: Result<Vec<Binding>, ConfigError>)
    ensures
        ({
            let kept = spec_kept_bindings(bridge_channels@);
            match r {
                Ok(bs) => {
                    &&& kept.len() > 0
                    &&& !has_duplicate_channel(kept)
                    &&& bs.deep_view().to_multiset() == kept.to_multiset()
                    &&& bindings_sorted(bs.deep_view())
                    &&& !has_duplicate_channel(bs.deep_view())
                },
                Err(e) => {
                    &&& (e == ConfigError::NoBindings <==> kept.len() == 0)
                    &&& (e == ConfigError::DuplicateChannel <==> kept.len() > 0
                        && has_duplicate_channel(kept))
                    &&& (e == ConfigError::NoBindings || e == ConfigError::DuplicateChannel)
                },
            }
        }),
{
    let chars = to_chars(bridge_channels);
    let kept = collect_bindings(&chars);
    let ghost keptdv = kept.deep_view();
    if kept.len() == 0 {
        proof {
            assert(keptdv.len() == kept@.len());
        }
        return Err(ConfigError::NoBindings);
    }
    proof {
        assert(keptdv.len() == kept@.len());
    }
    if find_duplicate(&kept) {
        return Err(ConfigError::DuplicateChannel);
    }
    let sorted = sort_bindings(kept);
    proof {
        if has_duplicate_channel(sorted.deep_view()) {
            lemma_dup_channel_transfer(sorted.deep_view(), keptdv);
            assert(false);
        }
    }
    Ok(sorted)
}

/// Parsing the same configuration twice yields the same binding sequence:
/// a sorted arrangement of the kept bindings is unique.
pub proof fn lemma_parse_deterministic(s: Seq<char>, r1: Seq<BindingV>, r2: Seq<BindingV>)
    requires
        bindings_sorted(r1),
        r1.to_multiset() == spec_kept_bindings(s).to_multiset(),
        bindings_sorted(r2),
        r2.to_multiset() == spec_kept_bindings(s).to_multiset(),
    ensures
        r1 == r2,
{
    lemma_sorted_unique(r1, r2);
}

// ---------------------------------------------------------------------------
// Delivery mode and process configuration
// ---------------------------------------------------------------------------

/// What a `DELIVERY_MODE` setting means: absent or `NON-PERSISTENT` is 1,
/// `PERSISTENT` is 2, anything else is an error.
pub open spec fn spec_delivery_mode(value: Option<Seq<char>>) -> Result<u8, ConfigError> {
    match value {
        None => Ok(1u8),
        Some(s) => if s == "NON-PERSISTENT"@ {
            Ok(1u8)
        } else if s == "PERSISTENT"@ {
            Ok(2u8)
        } else {
            Err(ConfigError::InvalidDeliveryMode)
        },
    }
}

/// Parse the `DELIVERY_MODE` setting.
pub fn parse_delivery_mode(value: Option<&str>) -> (r: Result<u8, ConfigError>)
    ensures
        r == spec_delivery_mode(
            match value {
                Some(s) => Some(s@),
                None => None,
            },
        ),
{
    match value {
        None => Ok(1u8),
        Some(s) => {
            if str_eq(s, "NON-PERSISTENT") {
                Ok(1u8)
            } else if str_eq(s, "PERSISTENT") {
                Ok(2u8)
            } else {
                Err(ConfigError::InvalidDeliveryMode)
            }
        },
    }
}

/// The values the bridge runs with, as plain strings, loaded by the
/// surrounding process and passed in by value.
#[derive(Debug, Clone)]
pub struct Config {
    pub postgresql_uri: String,
    pub amqp_host_port: String,
    pub bridge_channels: String,
}

impl Config {
    /// Pack already-loaded configuration values.
    pub fn new(postgresql_uri: String, amqp_host_port: String, bridge_channels: String) -> (c:
        Config)
        ensures
            c.postgresql_uri == postgresql_uri,
            c.amqp_host_port == amqp_host_port,
            c.bridge_channels == bridge_channels,
    {
        Config { postgresql_uri, amqp_host_port, bridge_channels }
    }
}

} // verus!
