use vstd::prelude::*;

use crate::device::{Device, DeviceModel};
use crate::errors::CacheError;

verus! {

/// The streaming-URL slot of a line: the URL itself, or nothing.
pub open spec fn rtsp_slot(d: DeviceModel) -> Seq<char> {
    match d.url_rtsp {
        Some(u) => u,
        None => Seq::empty(),
    }
}

/// One cache line for `d`, without its terminating newline:
/// `IP: <streaming-url-or-empty> ONVIF: <management-url>`.
pub open spec fn line_body(d: DeviceModel) -> Seq<char> {
    seq!['I', 'P', ':', ' '] + rtsp_slot(d) + seq![' ', 'O', 'N', 'V', 'I', 'F', ':', ' ']
        + d.url_onvif
}

/// One newline-terminated cache line for `d`.
pub open spec fn device_line(d: DeviceModel) -> Seq<char> {
    line_body(d) + seq!['\n']
}

/// The whole cache text for `devs`: one line per device, in order.
pub open spec fn rendered(devs: Seq<DeviceModel>) -> Seq<char>
    decreases devs.len(),
{
    if devs.len() == 0 {
        Seq::empty()
    } else {
        device_line(devs[0]) + rendered(devs.drop_first())
    }
}

/// Rendering one more device appends one more line.
pub proof fn lemma_rendered_snoc(devs: Seq<DeviceModel>, d: DeviceModel)
    ensures
        rendered(devs.push(d)) == rendered(devs) + device_line(d),
    decreases devs.len(),
{
    if devs.len() == 0 {
        let p = devs.push(d);
        assert(p.drop_first() =~= Seq::<DeviceModel>::empty());
        assert(rendered(Seq::<DeviceModel>::empty()) =~= Seq::<char>::empty());
        assert(p[0] == d);
        assert(rendered(p) =~= device_line(d));
        assert(rendered(devs) =~= Seq::<char>::empty());
        assert(rendered(devs) + device_line(d) =~= device_line(d));
    } else {
        assert(devs.push(d).drop_first() =~= devs.drop_first().push(d));
        lemma_rendered_snoc(devs.drop_first(), d);
        assert(rendered(devs.push(d)) =~= rendered(devs) + device_line(d));
    }
}

/// Serializes `devices` into the cache text, one line per device, in
/// order. An empty input is refused with `EmptyInput` and nothing is
/// produced.
pub fn serialize_devices(devices: &Vec<Device>) -> (r: Result<String, CacheError>)
    ensures
        devices@.len() == 0 ==> r == Err::<String, CacheError>(CacheError::EmptyInput),
        devices@.len() > 0 ==> (r matches Ok(s) && s@ == rendered(
            devices@.map_values(|d: Device| d@),
        )),
{
    let ghost models: Seq<DeviceModel> = devices@.map_values(|d: Device| d@);
    if devices.len() == 0 {
        return Err(CacheError::EmptyInput);
    }
    let mut out = String::new();
    let mut idx: usize = 0;
    proof {
        assert(models.take(0) =~= Seq::<DeviceModel>::empty());
    }
    while idx < devices.len()
        invariant
            idx <= devices@.len(),
            models == devices@.map_values(|d: Device| d@),
            out@ == rendered(models.take(idx as int)),
        decreases devices@.len() - idx,
    {
        let ghost out0 = out@;
        let d = &devices[idx];
        out.append("IP: ");
        match &d.url_rtsp {
            Some(u) => out.append(u.as_str()),
            None => {},
        }
        out.append(" ONVIF: ");
        out.append(d.url_onvif.as_str());
        out.append("\n");
        proof {
            reveal_strlit("IP: ");
            reveal_strlit(" ONVIF: ");
            reveal_strlit("\n");
            assert("IP: "@ =~= seq!['I', 'P', ':', ' ']);
            assert(" ONVIF: "@ =~= seq![' ', 'O', 'N', 'V', 'I', 'F', ':', ' ']);
            assert("\n"@ =~= seq!['\n']);
            assert(models[idx as int] == d@);
            assert(out@ =~= out0 + device_line(models[idx as int]));
            lemma_rendered_snoc(models.take(idx as int), models[idx as int]);
            assert(models.take(idx as int).push(models[idx as int]) =~= models.take(
                idx as int + 1,
            ));
        }
        idx = idx + 1;
    }
    proof {
        assert(models.take(devices@.len() as int) =~= models);
    }
    Ok(out)
}

} // verus!
