use vstd::prelude::*;

use crate::metrics::Metrics;
use crate::text::{decimal, decimal_string};

verus! {

/// One member of a JSON object, on a line of its own, indented by two spaces.
pub open spec fn json_member(field: (Seq<char>, Seq<char>)) -> Seq<char> {
    "  \""@ + field.0 + "\": "@ + field.1
}

/// Members separated by a comma and a line break.
pub open spec fn json_members(fields: Seq<(Seq<char>, Seq<char>)>) -> Seq<char>
    decreases fields.len(),
{
    if fields.len() == 0 {
        Seq::empty()
    } else if fields.len() == 1 {
        json_member(fields[0])
    } else {
        json_members(fields.drop_last()) + ",\n"@ + json_member(fields.last())
    }
}

/// A JSON object with the given names and already encoded values, in order.
pub open spec fn json_object(fields: Seq<(Seq<char>, Seq<char>)>) -> Seq<char> {
    "{\n"@ + json_members(fields) + "\n}"@
}

/// The report's fields: the policy name as a JSON string, the counters in decimal, and
/// the two ratios as the caller wrote them.
pub open spec fn report_fields(
    policy: Seq<char>,
    m: Metrics,
    hit_rate: Seq<char>,
    write_amplification: Seq<char>,
) -> Seq<(Seq<char>, Seq<char>)> {
    seq![
        ("policy"@, "\""@ + policy + "\""@),
        ("total_requests"@, decimal(m.total_requests as nat)),
        ("lookup_requests"@, decimal(m.lookup_requests as nat)),
        ("cache_hits"@, decimal(m.cache_hits as nat)),
        ("cache_misses"@, decimal(m.cache_misses as nat)),
        ("hit_rate"@, hit_rate),
        ("dram_hits"@, decimal(m.dram_hits as nat)),
        ("flash_hits"@, decimal(m.flash_hits as nat)),
        ("flash_bytes_written"@, decimal(m.flash_bytes_written as nat)),
        ("logical_bytes_admitted"@, decimal(m.logical_bytes_admitted as nat)),
        ("write_amplification"@, write_amplification),
        ("segment_flushes"@, decimal(m.segment_flushes as nat)),
        ("evictions"@, decimal(m.evictions as nat)),
    ]
}

pub open spec fn fields_view(fields: Seq<(String, String)>) -> Seq<(Seq<char>, Seq<char>)> {
    fields.map_values(|f: (String, String)| (f.0@, f.1@))
}

fn field(name: &str, value: String) -> (f: (String, String))
    ensures
        f.0@ == name@,
        f.1@ == value@,
{
    (name.to_owned(), value)
}

/// Writes a JSON object with the given fields.
pub fn json_text(fields: &Vec<(String, String)>) -> (s: String)
    ensures
        s@ == json_object(fields_view(fields@)),
{
    let ghost fv = fields_view(fields@);
    let mut s = "{\n".to_owned();
    let mut i: usize = 0;
    assert(fv.take(0) =~= Seq::<(Seq<char>, Seq<char>)>::empty());
    while i < fields.len()
        invariant
            i <= fields@.len(),
            fv == fields_view(fields@),
            s@ == "{\n"@ + json_members(fv.take(i as int)),
        decreases fields@.len() - i,
    {
        let ghost before = s@;
        if i > 0 {
            s.append(",\n");
        }
        s.append("  \"");
        s.append(fields[i].0.as_str());
        s.append("\": ");
        s.append(fields[i].1.as_str());
        proof {
            let t = fv.take(i + 1);
            assert(t.drop_last() =~= fv.take(i as int));
            assert(t.last() == fv[i as int]);
            assert(fv[i as int] == (fields@[i as int].0@, fields@[i as int].1@));
            if i == 0 {
                assert(fv.take(0) =~= Seq::<(Seq<char>, Seq<char>)>::empty());
                assert(json_members(fv.take(0)) =~= Seq::<char>::empty());
                assert(s@ =~= "{\n"@ + json_member(t[0]));
            } else {
                assert(s@ =~= "{\n"@ + (json_members(t.drop_last()) + ",\n"@ + json_member(
                    t.last(),
                )));
            }
        }
        i += 1;
    }
    assert(fv.take(i as int) =~= fv);
    s.append("\n}");
    s
}

/// The report as JSON; the two ratios are passed already written out.
pub fn json_report(
    policy: &str,
    metrics: &Metrics,
    hit_rate: &str,
    write_amplification: &str,
) -> (s: String)
    ensures
        s@ == json_object(report_fields(policy@, *metrics, hit_rate@, write_amplification@)),
{
    let mut quoted = "\"".to_owned();
    quoted.append(policy);
    quoted.append("\"");
    let mut fields: Vec<(String, String)> = Vec::new();
    fields.push(field("policy", quoted));
    fields.push(field("total_requests", decimal_string(metrics.total_requests)));
    fields.push(field("lookup_requests", decimal_string(metrics.lookup_requests)));
    fields.push(field("cache_hits", decimal_string(metrics.cache_hits)));
    fields.push(field("cache_misses", decimal_string(metrics.cache_misses)));
    fields.push(field("hit_rate", hit_rate.to_owned()));
    fields.push(field("dram_hits", decimal_string(metrics.dram_hits)));
    fields.push(field("flash_hits", decimal_string(metrics.flash_hits)));
    fields.push(field("flash_bytes_written", decimal_string(metrics.flash_bytes_written)));
    fields.push(field("logical_bytes_admitted", decimal_string(metrics.logical_bytes_admitted)));
    fields.push(field("write_amplification", write_amplification.to_owned()));
    fields.push(field("segment_flushes", decimal_string(metrics.segment_flushes)));
    fields.push(field("evictions", decimal_string(metrics.evictions)));
    assert(fields_view(fields@) =~= report_fields(
        policy@,
        *metrics,
        hit_rate@,
        write_amplification@,
    ));
    json_text(&fields)
}

} // verus!
