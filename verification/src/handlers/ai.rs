//! Reading the answer of the tagging tool that analyses an item description.
use vstd::prelude::*;

use crate::error::AppError;
use crate::text::{is_blank, is_blank_spec};

verus! {

/// A request to analyse an item description.
#[derive(Debug, Clone)]
pub struct AnalyzeReq {
    pub description: String,
}

/// The analysis of a description: its tags, its value tier and how they were found.
#[derive(Debug, Clone)]
pub struct AnalyzeRes {
    pub tags: Vec<String>,
    pub value_tier: u8,
    pub method: String,
}

/// What the tagging tool printed, as far as it is read: the `tags` array (each entry a
/// string or not), the `value_tier` as an unsigned number, and the `method` string.
#[derive(Debug, Clone)]
pub struct ScalpelOutput {
    pub tags: Option<Vec<Option<String>>>,
    pub value_tier: Option<u64>,
    pub method: Option<String>,
}

/// The fields of the tool's output, as plain values.
pub open spec fn output_fields(o: ScalpelOutput) -> (Option<Seq<Option<Seq<char>>>>, Option<u64>, Option<Seq<char>>) {
    (
        match o.tags {
            Some(v) => Some(v@.map_values(|x: Option<String>| match x {
                Some(s) => Some(s@),
                None => None,
            })),
            None => None,
        },
        o.value_tier,
        match o.method {
            Some(m) => Some(m@),
            None => None,
        },
    )
}

/// What `serde_json::from_slice` reads from the tool's output `stdout`, narrowed to the
/// `tags`, `value_tier` and `method` fields; or the text of the parse error.
pub uninterp spec fn scalpel_fields(stdout: Seq<u8>) -> Result<(Option<Seq<Option<Seq<char>>>>, Option<u64>, Option<Seq<char>>), Seq<char>>;

/// Calls `serde_json::from_slice` on the tool's output and reads the fields `tags` (an
/// array, each entry as a string if it is one), `value_tier` (as `u64`) and `method`
/// (as a string).
#[verifier::external_body]
fn parse_scalpel_output(stdout: &[u8]) -> (r: Result<ScalpelOutput, String>)
    ensures
        match r {
            Ok(o) => scalpel_fields(stdout@) == Ok::<(Option<Seq<Option<Seq<char>>>>, Option<u64>, Option<Seq<char>>), Seq<char>>(output_fields(o)),
            Err(e) => scalpel_fields(stdout@) == Err::<(Option<Seq<Option<Seq<char>>>>, Option<u64>, Option<Seq<char>>), Seq<char>>(e@),
        },
{
    let v: serde_json::Value = serde_json::from_slice(stdout).map_err(|e| e.to_string())?;
    Ok(ScalpelOutput {
        tags: v["tags"].as_array().map(|a| a.iter().map(|x| x.as_str().map(String::from)).collect()),
        value_tier: v["value_tier"].as_u64(),
        method: v["method"].as_str().map(String::from),
    })
}

/// The strings among the entries, in order.
pub open spec fn present_strings(entries: Seq<Option<Seq<char>>>) -> Seq<Seq<char>>
    decreases entries.len(),
{
    if entries.len() == 0 {
        Seq::empty()
    } else {
        let rest = present_strings(entries.drop_last());
        match entries.last() {
            Some(s) => rest.push(s),
            None => rest,
        }
    }
}

/// The analysis that the tool's output fields give: the string tags (none when there
/// is no tag array), the value tier truncated to a byte (1 when absent), and the method
/// ("unknown" when absent).
pub open spec fn analysis_of(
    f: (Option<Seq<Option<Seq<char>>>>, Option<u64>, Option<Seq<char>>),
    res: AnalyzeRes,
) -> bool {
    &&& res.tags@.map_values(|t: String| t@) == match f.0 {
        Some(v) => present_strings(v),
        None => Seq::empty(),
    }
    &&& res.value_tier == match f.1 {
        Some(v) => (v % 256) as u8,
        None => 1u8,
    }
    &&& res.method@ == match f.2 {
        Some(m) => m,
        None => "unknown"@,
    }
}

/// The analysis that the tool's output gives.
pub fn analyze_result(out: ScalpelOutput) -> (res: AnalyzeRes)
    ensures
        analysis_of(output_fields(out), res),
{
    let mut tags: Vec<String> = Vec::new();
    match &out.tags {
        Some(entries) => {
            let mut i: usize = 0;
            while i < entries.len()
                invariant
                    i <= entries@.len(),
                    tags@.map_values(|t: String| t@) == present_strings(
                        entries@.subrange(0, i as int).map_values(
                            |x: Option<String>|
                                match x {
                                    Some(s) => Some(s@),
                                    None => None,
                                },
                        ),
                    ),
                decreases entries@.len() - i,
            {
                let ghost before = tags@;
                match &entries[i] {
                    Some(s) => tags.push(s.clone()),
                    None => {},
                }
                proof {
                    let f = |x: Option<String>|
                        match x {
                            Some(s) => Some(s@),
                            None => None,
                        };
                    let sub = entries@.subrange(0, i + 1).map_values(f);
                    assert(sub.drop_last() =~= entries@.subrange(0, i as int).map_values(f));
                    assert(sub.last() == f(entries@[i as int]));
                    assert(tags@.map_values(|t: String| t@) =~= present_strings(sub));
                }
                i = i + 1;
            }
            proof {
                assert(entries@.subrange(0, entries@.len() as int) =~= entries@);
            }
        },
        None => {
            proof {
                assert(tags@.map_values(|t: String| t@) =~= Seq::<Seq<char>>::empty());
            }
        },
    }
    let value_tier: u8 = match out.value_tier {
        Some(v) => (v % 256) as u8,
        None => 1,
    };
    let method = match out.method {
        Some(m) => m,
        None => String::from_str("unknown"),
    };
    AnalyzeRes { tags, value_tier, method }
}

/// Refuses a blank description.
pub fn check_description(req: &AnalyzeReq) -> (r: Result<(), AppError>)
    ensures
        is_blank_spec(req.description@) ==> (r matches Err(AppError::BadRequest(m)) && m@
            == "description 不能为空"@),
        !is_blank_spec(req.description@) ==> r is Ok,
{
    if is_blank(req.description.as_str()) {
        Err(AppError::BadRequest(String::from_str("description 不能为空")))
    } else {
        Ok(())
    }
}

/// The analysis from the tool's run: an internal error when the tool failed or its
/// output does not parse, the analysis of its output otherwise.
pub fn analyze_output(success: bool, stdout: &[u8]) -> (r: Result<AnalyzeRes, AppError>)
    ensures
        !success ==> (r matches Err(AppError::InternalMsg(m)) && m@ == "标签提取失败"@),
        success && scalpel_fields(stdout@) is Err ==> (r matches Err(AppError::InternalMsg(m))
            && m@ == "解析 scalpel 输出失败: "@ + scalpel_fields(stdout@)->Err_0),
        success && scalpel_fields(stdout@) is Ok ==> (r matches Ok(res) && analysis_of(
            scalpel_fields(stdout@)->Ok_0,
            res,
        )),
{
    if !success {
        return Err(AppError::InternalMsg(String::from_str("标签提取失败")));
    }
    match parse_scalpel_output(stdout) {
        Err(e) => {
            let mut m = String::from_str("解析 scalpel 输出失败: ");
            m.append(e.as_str());
            Err(AppError::InternalMsg(m))
        },
        Ok(out) => Ok(analyze_result(out)),
    }
}

} // verus!
