//! Event enrichment: the metadata object injected into every payload
//! before it is enqueued.
//!
//! Enrichment is a pure transformation: given a payload, a timestamp and
//! the geo-enrichment flag it produces the payload that goes on the
//! wire, and leaves anything that is not a JSON object untouched.  The
//! expected shape is fixed by [`enriched`], which every contract
//! downstream speaks of.

use vstd::prelude::*;
use vstd::string::StringExecFns;
use crate::json::{
    jview, jview_members, jview_seq, lemma_jview_members_props, lemma_jview_members_push,
    lemma_jview_seq_push, JsonData, JsonValue, Member,
};

verus! {

/// Metadata injected into a transmitted event: the enqueue timestamp
/// and the server-side enrichment instructions.
pub struct KeenInfo {
    pub timestamp: String,
    pub addons: Vec<KeenAddons>,
}

/// One server-side enrichment instruction.
pub struct KeenAddons {
    pub name: String,
    pub input: KeenInput,
    pub output: String,
}

/// The input descriptor of an enrichment instruction.
pub struct KeenInput {
    pub ip: String,
    pub remove_ip_property: bool,
}

impl KeenInfo {
    /// Fresh metadata: the given timestamp, no instructions yet.
    pub fn new(timestamp: String) -> (r: Self)
        ensures
            r.timestamp == timestamp,
            r.addons@ == Seq::<KeenAddons>::empty(),
    {
        KeenInfo { timestamp, addons: Vec::new() }
    }

    /// Appends one enrichment instruction.
    pub fn add_addon(&mut self, addon: KeenAddons)
        ensures
            final(self).timestamp == old(self).timestamp,
            final(self).addons@ == old(self).addons@.push(addon),
    {
        self.addons.push(addon);
    }
}

impl KeenAddons {
    /// The IP-to-geo instruction: the remote service reads the IP
    /// address under `input_field_name`, writes the looked-up location
    /// under `output_field_name`, and removes the address when asked to.
    pub fn build_ip_geo_addons(
        input_field_name: &str,
        output_field_name: &str,
        remove_ip_property: bool,
    ) -> (r: Self)
        ensures
            r.name@ == "keen:ip_to_geo"@,
            r.input.ip@ == input_field_name@,
            r.input.remove_ip_property == remove_ip_property,
            r.output@ == output_field_name@,
    {
        KeenAddons {
            name: "keen:ip_to_geo".to_owned(),
            input: KeenInput { ip: input_field_name.to_owned(), remove_ip_property },
            output: output_field_name.to_owned(),
        }
    }
}

/// The JSON shape of one enrichment instruction.
pub open spec fn addon_data(a: KeenAddons) -> JsonData {
    JsonData::Object(
        seq![
            ("name"@, JsonData::Str(a.name@)),
            (
                "input"@,
                JsonData::Object(
                    seq![
                        ("ip"@, JsonData::Str(a.input.ip@)),
                        ("remove_ip_property"@, JsonData::Bool(a.input.remove_ip_property)),
                    ],
                ),
            ),
            ("output"@, JsonData::Str(a.output@)),
        ],
    )
}

/// The JSON shapes of a list of instructions, in order.
pub open spec fn addons_data(s: Seq<KeenAddons>) -> Seq<JsonData>
    decreases s.len(),
{
    if s.len() == 0 {
        Seq::empty()
    } else {
        addons_data(s.drop_last()).push(addon_data(s.last()))
    }
}

/// The JSON shape of the injected metadata object.
pub open spec fn keen_info_data(k: KeenInfo) -> JsonData {
    JsonData::Object(
        seq![
            ("timestamp"@, JsonData::Str(k.timestamp@)),
            ("addons"@, JsonData::Array(addons_data(k.addons@))),
        ],
    )
}

/// The JSON shape of the IP-to-geo instruction the client attaches.
pub open spec fn geo_addon_data() -> JsonData {
    JsonData::Object(
        seq![
            ("name"@, JsonData::Str("keen:ip_to_geo"@)),
            (
                "input"@,
                JsonData::Object(
                    seq![
                        ("ip"@, JsonData::Str("ip_address"@)),
                        ("remove_ip_property"@, JsonData::Bool(true)),
                    ],
                ),
            ),
            ("output"@, JsonData::Str("ip_geo_info"@)),
        ],
    )
}

/// Replaces the value under `key` in place, keeping member order; a
/// missing key is appended as the last member.
pub open spec fn obj_set(
    ms: Seq<(Seq<char>, JsonData)>,
    key: Seq<char>,
    val: JsonData,
) -> Seq<(Seq<char>, JsonData)>
    decreases ms.len(),
{
    if ms.len() == 0 {
        seq![(key, val)]
    } else if ms[0].0 == key {
        seq![(key, val)] + ms.drop_first()
    } else {
        seq![ms[0]] + obj_set(ms.drop_first(), key, val)
    }
}

/// The enriched payload: a JSON object gains the metadata under the
/// `keen` key (and, with geo enrichment, the placeholder address under
/// `ip_address`); any other payload is passed through unchanged.
pub open spec fn enriched(orig: JsonData, ts: Seq<char>, geo: bool) -> JsonData {
    match orig {
        JsonData::Object(ms) => {
            let with_ip = if geo {
                obj_set(ms, "ip_address"@, JsonData::Str("${keen.ip}"@))
            } else {
                ms
            };
            let addons = if geo {
                seq![geo_addon_data()]
            } else {
                Seq::<JsonData>::empty()
            };
            JsonData::Object(
                obj_set(
                    with_ip,
                    "keen"@,
                    JsonData::Object(
                        seq![
                            ("timestamp"@, JsonData::Str(ts)),
                            ("addons"@, JsonData::Array(addons)),
                        ],
                    ),
                ),
            )
        },
        _ => orig,
    }
}

proof fn lemma_obj_set_found(ms: Seq<(Seq<char>, JsonData)>, key: Seq<char>, val: JsonData, j: int)
    requires
        0 <= j < ms.len(),
        ms[j].0 == key,
        forall|k: int| 0 <= k < j ==> ms[k].0 != key,
    ensures
        obj_set(ms, key, val) == ms.update(j, (key, val)),
    decreases j,
{
    if j == 0 {
        assert(seq![(key, val)] + ms.drop_first() =~= ms.update(0, (key, val)));
    } else {
        lemma_obj_set_found(ms.drop_first(), key, val, j - 1);
        assert(seq![ms[0]] + ms.drop_first().update(j - 1, (key, val)) =~= ms.update(
            j,
            (key, val),
        ));
    }
}

proof fn lemma_obj_set_absent(ms: Seq<(Seq<char>, JsonData)>, key: Seq<char>, val: JsonData)
    requires
        forall|k: int| 0 <= k < ms.len() ==> ms[k].0 != key,
    ensures
        obj_set(ms, key, val) == ms.push((key, val)),
    decreases ms.len(),
{
    if ms.len() == 0 {
        assert(seq![(key, val)] =~= ms.push((key, val)));
    } else {
        lemma_obj_set_absent(ms.drop_first(), key, val);
        assert(seq![ms[0]] + ms.drop_first().push((key, val)) =~= ms.push((key, val)));
    }
}

/// The JSON value of one enrichment instruction.
fn addon_to_json(a: &KeenAddons) -> (r: JsonValue)
    ensures
        jview(r) == addon_data(*a),
{
    let mut input_members: Vec<Member> = Vec::new();
    input_members.push(Member { key: "ip".to_owned(), value: JsonValue::Str(a.input.ip.clone()) });
    input_members.push(
        Member {
            key: "remove_ip_property".to_owned(),
            value: JsonValue::Bool(a.input.remove_ip_property),
        },
    );
    let input_value = JsonValue::Object(input_members);
    proof {
        lemma_jview_members_props(input_value->Object_0@);
        assert(jview_members(input_value->Object_0@) =~= seq![
            ("ip"@, JsonData::Str(a.input.ip@)),
            ("remove_ip_property"@, JsonData::Bool(a.input.remove_ip_property)),
        ]);
    }
    let mut members: Vec<Member> = Vec::new();
    members.push(Member { key: "name".to_owned(), value: JsonValue::Str(a.name.clone()) });
    members.push(Member { key: "input".to_owned(), value: input_value });
    members.push(Member { key: "output".to_owned(), value: JsonValue::Str(a.output.clone()) });
    let r = JsonValue::Object(members);
    proof {
        lemma_jview_members_props(r->Object_0@);
        assert(jview_members(r->Object_0@) =~~= addon_data(*a)->Object_0);
    }
    r
}

/// The JSON value of the metadata object.
fn keen_info_to_json(info: KeenInfo) -> (r: JsonValue)
    ensures
        jview(r) == keen_info_data(info),
{
    let mut addons: Vec<JsonValue> = Vec::new();
    let mut i: usize = 0;
    while i < info.addons.len()
        invariant
            i <= info.addons.len(),
            jview_seq(addons@) == addons_data(info.addons@.take(i as int)),
        decreases info.addons.len() - i,
    {
        let a = addon_to_json(&info.addons[i]);
        proof {
            lemma_jview_seq_push(addons@, a);
            assert(info.addons@.take(i as int + 1).drop_last() =~= info.addons@.take(i as int));
            assert(info.addons@.take(i as int + 1).last() == info.addons@[i as int]);
        }
        addons.push(a);
        i = i + 1;
    }
    proof {
        assert(info.addons@.take(info.addons@.len() as int) =~= info.addons@);
    }
    let addons_value = JsonValue::Array(addons);
    let mut members: Vec<Member> = Vec::new();
    members.push(Member { key: "timestamp".to_owned(), value: JsonValue::Str(info.timestamp) });
    members.push(Member { key: "addons".to_owned(), value: addons_value });
    let r = JsonValue::Object(members);
    proof {
        lemma_jview_members_props(r->Object_0@);
        assert(jview_members(r->Object_0@) =~~= keen_info_data(info)->Object_0);
    }
    r
}

/// Replaces the value under `key`, or appends the member when the key
/// is absent; the first member with a matching key wins.
fn set_member(ms: &mut Vec<Member>, key: &str, val: JsonValue)
    ensures
        jview_members(final(ms)@) == obj_set(jview_members(old(ms)@), key@, jview(val)),
{
    let ghost orig = jview_members(old(ms)@);
    proof {
        lemma_jview_members_props(old(ms)@);
    }
    let k: String = key.to_owned();
    let mut j: usize = 0;
    while j < ms.len()
        invariant
            *ms == *old(ms),
            orig == jview_members(old(ms)@),
            orig.len() == old(ms)@.len(),
            forall|t: int|
                0 <= t < old(ms)@.len() ==> orig[t] == (old(ms)@[t].key@, jview(
                    old(ms)@[t].value,
                )),
            k@ == key@,
            j <= ms@.len(),
            forall|t: int| 0 <= t < j ==> orig[t].0 != key@,
        decreases ms@.len() - j,
    {
        if ms[j].key == k {
            ms[j].value = val;
            proof {
                lemma_obj_set_found(orig, key@, jview(val), j as int);
                lemma_jview_members_props(ms@);
                assert(jview_members(ms@) =~= orig.update(j as int, (key@, jview(val))));
            }
            return ;
        }
        j = j + 1;
    }
    let m = Member { key: k, value: val };
    proof {
        lemma_obj_set_absent(orig, key@, jview(m.value));
        lemma_jview_members_push(ms@, m);
    }
    ms.push(m);
}

/// The payload that goes on the wire: `payload` with the metadata under
/// `keen` (timestamp plus instructions), and with the placeholder
/// address under `ip_address` when geo enrichment is asked for.  A
/// payload that is not a JSON object is returned unchanged.
pub fn enrich_payload(payload: JsonValue, timestamp: &str, add_ip_geo: bool) -> (r: JsonValue)
    ensures
        jview(r) == enriched(jview(payload), timestamp@, add_ip_geo),
{
    match payload {
        JsonValue::Object(ms0) => {
            let ghost views0 = jview_members(ms0@);
            proof {
                assert(jview(payload) == JsonData::Object(views0));
            }
            let mut ms = ms0;
            if add_ip_geo {
                set_member(&mut ms, "ip_address", JsonValue::Str("${keen.ip}".to_owned()));
            }
            let ghost views1 = jview_members(ms@);
            let mut info = KeenInfo::new(timestamp.to_owned());
            if add_ip_geo {
                info.add_addon(KeenAddons::build_ip_geo_addons("ip_address", "ip_geo_info", true));
                proof {
                    let a = info.addons@.last();
                    assert(addon_data(a) =~~= geo_addon_data());
                    assert(info.addons@.drop_last() =~= Seq::<KeenAddons>::empty());
                    assert(addons_data(Seq::<KeenAddons>::empty()) =~= Seq::<JsonData>::empty());
                    assert(addons_data(info.addons@) =~~= seq![geo_addon_data()]);
                }
            } else {
                proof {
                    assert(addons_data(info.addons@) =~= Seq::<JsonData>::empty());
                }
            }
            let ghost keen_value_data = keen_info_data(info);
            let keen_value = keen_info_to_json(info);
            set_member(&mut ms, "keen", keen_value);
            let r = JsonValue::Object(ms);
            proof {
                let addons = if add_ip_geo {
                    seq![geo_addon_data()]
                } else {
                    Seq::<JsonData>::empty()
                };
                assert(keen_value_data =~~= JsonData::Object(
                    seq![
                        ("timestamp"@, JsonData::Str(timestamp@)),
                        ("addons"@, JsonData::Array(addons)),
                    ],
                ));
                assert(jview(r) == JsonData::Object(obj_set(views1, "keen"@, keen_value_data)));
                assert(jview(r) =~~= enriched(jview(payload), timestamp@, add_ip_geo));
            }
            r
        },
        p => p,
    }
}

} // verus!
