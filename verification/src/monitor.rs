//! What the health sweep computes: the URLs it probes and the summary it
//! reports after each round.  Issuing the probes and printing the summary
//! happen outside the library; the sweep's effect on the registry is
//! [`crate::registry::Registry::apply_probe_results`].

use vstd::prelude::*;
use crate::record::{ModelRecord, ModelRecordView};

verus! {

/// The liveness endpoint probed for a registered record.
pub open spec fn spec_health_url(address: Seq<char>) -> Seq<char> {
    "http://"@ + address + "/health"@
}

/// The URL of a record's liveness endpoint.
pub fn health_url(address: &str) -> (url: String)
    ensures
        url@ == spec_health_url(address@),
{
    let mut url = String::new();
    url.append("http://");
    url.append(address);
    url.append("/health");
    url
}

/// The self-description endpoint probed at bootstrap.
pub open spec fn spec_info_url(host: Seq<char>, port: Seq<char>) -> Seq<char> {
    "http://"@ + host + seq![':'] + port + "/info"@
}

/// The URL of the bootstrap target's self-description endpoint.
pub fn info_url(host: &str, port: &str) -> (url: String)
    ensures
        url@ == spec_info_url(host@, port@),
{
    let mut url = String::new();
    url.append("http://");
    url.append(host);
    crate::text::push_char(&mut url, ':');
    url.append(port);
    url.append("/info");
    url
}

/// The lines of one sweep round's summary: a separator, the timestamp,
/// the records that stayed, and the records the round dropped.
pub open spec fn spec_summary_lines(
    now: Seq<char>,
    kept: Seq<ModelRecordView>,
    dropped: Seq<ModelRecordView>,
) -> Seq<Seq<char>> {
    seq!["------------------"@, "Current time: "@ + now, "Current Models:"@] + kept.map_values(
        |r: ModelRecordView| r.describe(),
    ) + seq!["Dropped Models:"@] + dropped.map_values(|r: ModelRecordView| r.describe())
}

fn push_descriptions(out: &mut Vec<String>, records: &Vec<ModelRecord>)
    ensures
        final(out)@.map_values(|s: String| s@) == old(out)@.map_values(|s: String| s@)
            + records@.map_values(|r: ModelRecord| r@).map_values(
            |r: ModelRecordView| r.describe(),
        ),
{
    let ghost descs = records@.map_values(|r: ModelRecord| r@).map_values(
        |r: ModelRecordView| r.describe(),
    );
    let mut i: usize = 0;
    proof {
        assert(out@.map_values(|s: String| s@) + descs.take(0) =~= out@.map_values(
            |s: String| s@,
        ));
    }
    while i < records.len()
        invariant
            i <= records.len(),
            descs == records@.map_values(|r: ModelRecord| r@).map_values(
                |r: ModelRecordView| r.describe(),
            ),
            descs.len() == records.len(),
            out@.map_values(|s: String| s@) == old(out)@.map_values(|s: String| s@) + descs.take(
                i as int,
            ),
        decreases records.len() - i,
    {
        let ghost pre = out@;
        out.push(records[i].describe());
        proof {
            assert(out@ =~= pre.push(out@.last()));
            assert(out@.map_values(|s: String| s@) =~= pre.map_values(|s: String| s@) + seq![
                out@.last()@,
            ]);
            assert(descs.take(i + 1) =~= descs.take(i as int) + seq![descs[i as int]]);
            assert(out@.map_values(|s: String| s@) =~= old(out)@.map_values(|s: String| s@)
                + descs.take(i + 1));
        }
        i = i + 1;
    }
    proof {
        assert(descs.take(records.len() as int) =~= descs);
    }
}

/// Assemble one sweep round's summary, ready to print line by line.
pub fn summary_lines(now: &String, kept: &Vec<ModelRecord>, dropped: &Vec<ModelRecord>) -> (out:
    Vec<String>)
    ensures
        out@.map_values(|s: String| s@) == spec_summary_lines(
            now@,
            kept@.map_values(|r: ModelRecord| r@),
            dropped@.map_values(|r: ModelRecord| r@),
        ),
{
    let mut out: Vec<String> = Vec::new();
    out.push("------------------".to_owned());
    let mut time_line = String::new();
    time_line.append("Current time: ");
    time_line.append(now.as_str());
    out.push(time_line);
    out.push("Current Models:".to_owned());
    proof {
        assert(out@.map_values(|s: String| s@) =~= seq![
            "------------------"@,
            "Current time: "@ + now@,
            "Current Models:"@,
        ]);
    }
    push_descriptions(&mut out, kept);
    let ghost mid = out@.map_values(|s: String| s@);
    out.push("Dropped Models:".to_owned());
    proof {
        assert(out@.map_values(|s: String| s@) =~= mid + seq!["Dropped Models:"@]);
    }
    push_descriptions(&mut out, dropped);
    proof {
        assert(out@.map_values(|s: String| s@) =~= spec_summary_lines(
            now@,
            kept@.map_values(|r: ModelRecord| r@),
            dropped@.map_values(|r: ModelRecord| r@),
        ));
    }
    out
}

} // verus!
