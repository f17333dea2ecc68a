use vstd::prelude::*;

use crate::device::{Device, DeviceModel};
use crate::errors::CacheError;
use crate::text::{contains_marker, find_marker, lines_of, split_by, split_char, split_lines};
use crate::urls::{check_url, is_url};

verus! {

/// Reads one cache line: split on single spaces, keep the value tokens at
/// odd positions, map an empty streaming slot to `None`, and demand that
/// every present URL is well-formed. `None` marks a malformed line: too
/// few tokens, or a value that is no URL.
pub open spec fn parse_line(line: Seq<char>) -> Option<DeviceModel> {
    let toks = split_char(line, ' ');
    if toks.len() < 4 {
        None
    } else if !is_url(toks[3]) {
        None
    } else if toks[1].len() == 0 {
        Some(DeviceModel { url_rtsp: None, url_onvif: toks[3] })
    } else if is_url(toks[1]) {
        Some(DeviceModel { url_rtsp: Some(toks[1]), url_onvif: toks[3] })
    } else {
        None
    }
}

/// Reads a sequence of cache lines, one record per line, in order.
/// `None` if any line is malformed.
pub open spec fn parse_lines(lines: Seq<Seq<char>>) -> Option<Seq<DeviceModel>>
    decreases lines.len(),
{
    if lines.len() == 0 {
        Some(Seq::empty())
    } else {
        match parse_line(lines[0]) {
            None => None,
            Some(d) => match parse_lines(lines.drop_first()) {
                None => None,
                Some(rest) => Some(seq![d] + rest),
            },
        }
    }
}

/// Parsing one more line appends one more record, and a malformed line
/// anywhere spoils the whole sequence.
pub proof fn lemma_parse_lines_snoc(lines: Seq<Seq<char>>, l: Seq<char>)
    ensures
        parse_lines(lines.push(l)) == match parse_lines(lines) {
            None => None::<Seq<DeviceModel>>,
            Some(rest) => match parse_line(l) {
                None => None::<Seq<DeviceModel>>,
                Some(d) => Some(rest.push(d)),
            },
        },
    decreases lines.len(),
{
    if lines.len() == 0 {
        let p = lines.push(l);
        assert(p[0] == l);
        assert(p.drop_first() =~= Seq::<Seq<char>>::empty());
        assert(parse_lines(Seq::<Seq<char>>::empty()) == Some(Seq::<DeviceModel>::empty()));
        if parse_line(l) is Some {
            let d = parse_line(l)->0;
            assert(seq![d] + Seq::<DeviceModel>::empty() =~= Seq::<DeviceModel>::empty().push(d));
        }
    } else {
        let p = lines.push(l);
        assert(p[0] == lines[0]);
        assert(p.drop_first() =~= lines.drop_first().push(l));
        lemma_parse_lines_snoc(lines.drop_first(), l);
        if parse_line(p[0]) is Some && parse_lines(lines.drop_first()) is Some && parse_line(l)
            is Some {
            let d0 = parse_line(p[0])->0;
            let rest = parse_lines(lines.drop_first())->0;
            let d = parse_line(l)->0;
            assert(seq![d0] + rest.push(d) =~= (seq![d0] + rest).push(d));
        }
    }
}

/// What loading cache text yields: each failure tied exactly to its
/// cause, in the order the checks run, and otherwise the records of
/// every line, in file order.
pub open spec fn load_from(s: Seq<char>) -> Result<Seq<DeviceModel>, CacheError> {
    if s.len() == 0 {
        Err(CacheError::EmptyFile)
    } else if !contains_marker(s) {
        Err(CacheError::NoDevicesFound)
    } else {
        match parse_lines(split_lines(s)) {
            None => Err(CacheError::MalformedRecord),
            Some(devs) => if devs.len() == 0 {
                Err(CacheError::NoParsedDevices)
            } else {
                Ok(devs)
            },
        }
    }
}

/// Reads one line into a device record, exactly as `parse_line` does.
fn parse_one(line: &str) -> (r: Option<Device>)
    ensures
        match r {
            Some(d) => parse_line(line@) == Some(d@),
            None => parse_line(line@) == None::<DeviceModel>,
        },
{
    let toks = split_by(line, ' ');
    let ghost tok_views = toks@.map_values(|t: &str| t@);
    if toks.len() < 4 {
        return None;
    }
    let v0 = toks[1];
    let v1 = toks[3];
    proof {
        assert(v0@ == tok_views[1]);
        assert(v1@ == tok_views[3]);
    }
    if !check_url(v1) {
        return None;
    }
    let url_onvif = v1.to_owned();
    if v0.is_empty() {
        return Some(Device { url_rtsp: None, url_onvif });
    }
    if !check_url(v0) {
        return None;
    }
    Some(Device { url_rtsp: Some(v0.to_owned()), url_onvif })
}

/// Parses the full cache text into device records.
///
/// Empty text is `EmptyFile`; text without the marker `IP` is
/// `NoDevicesFound`; a malformed line aborts the whole load with
/// `MalformedRecord`; otherwise every line yields one record, in file
/// order, and the defensive `NoParsedDevices` covers a parse that yields
/// nothing.
pub fn parse_devices(contents: &str) -> (r: Result<Vec<Device>, CacheError>)
    ensures
        ({
            let m = load_from(contents@);
            match r {
                Ok(v) => m matches Ok(ds) && v@.map_values(|d: Device| d@) == ds,
                Err(e) => m == Err::<Seq<DeviceModel>, CacheError>(e),
            }
        }),
{
    let n = contents.unicode_len();
    if n == 0 {
        return Err(CacheError::EmptyFile);
    }
    if !find_marker(contents) {
        return Err(CacheError::NoDevicesFound);
    }
    let lines = lines_of(contents);
    let ghost line_views = lines@.map_values(|t: &str| t@);
    let mut devices: Vec<Device> = Vec::new();
    let mut idx: usize = 0;
    proof {
        assert(line_views.take(0) =~= Seq::<Seq<char>>::empty());
        assert(devices@.map_values(|d: Device| d@) =~= Seq::<DeviceModel>::empty());
    }
    while idx < lines.len()
        invariant
            idx <= lines@.len(),
            contents@.len() > 0,
            contains_marker(contents@),
            line_views == lines@.map_values(|t: &str| t@),
            line_views == split_lines(contents@),
            parse_lines(line_views.take(idx as int)) == Some(
                devices@.map_values(|d: Device| d@),
            ),
        decreases lines@.len() - idx,
    {
        let ghost devs0 = devices@.map_values(|d: Device| d@);
        let line = lines[idx];
        proof {
            assert(line@ == line_views[idx as int]);
        }
        match parse_one(line) {
            None => {
                proof {
                    lemma_parse_lines_prefix_fail(line_views, idx as int);
                }
                return Err(CacheError::MalformedRecord);
            },
            Some(d) => {
                devices.push(d);
                proof {
                    lemma_parse_lines_snoc(line_views.take(idx as int), line_views[idx as int]);
                    assert(line_views.take(idx as int).push(line_views[idx as int])
                        =~= line_views.take(idx as int + 1));
                    assert(devices@.map_values(|dv: Device| dv@) =~= devs0.push(d@));
                }
            },
        }
        idx = idx + 1;
    }
    proof {
        assert(line_views.take(lines@.len() as int) =~= line_views);
    }
    if devices.len() == 0 {
        return Err(CacheError::NoParsedDevices);
    }
    Ok(devices)
}

/// If some line fails to parse, the whole sequence fails, whatever stands
/// before or after it.
proof fn lemma_parse_lines_prefix_fail(lines: Seq<Seq<char>>, i: int)
    requires
        0 <= i < lines.len(),
        parse_line(lines[i]) is None,
    ensures
        parse_lines(lines) is None,
    decreases lines.len(),
{
    if lines.len() > 0 {
        if i > 0 {
            lemma_parse_lines_prefix_fail(lines.drop_first(), i - 1);
        }
    }
}

} // verus!
