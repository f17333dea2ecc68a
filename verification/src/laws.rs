use vstd::prelude::*;

use crate::device::DeviceModel;
use crate::reader::{load_from, parse_line, parse_lines};
use crate::text::{
    contains_marker, lemma_split_char_step, lemma_split_char_whole, split_char, split_lines,
};
use crate::urls::{is_url, lemma_url_free_of_separators};
use crate::writer::{line_body, rendered, rtsp_slot};

verus! {

/// A record the cache format can carry faithfully: every URL it holds is
/// well-formed. (A well-formed URL is never empty, so a present streaming
/// URL never collides with the empty slot that encodes `None`.)
pub open spec fn device_ok(d: DeviceModel) -> bool {
    &&& match d.url_rtsp {
        Some(u) => is_url(u),
        None => true,
    }
    &&& is_url(d.url_onvif)
}

/// The streaming slot of a faithful record holds no separator character.
proof fn lemma_rtsp_slot_clean(d: DeviceModel)
    requires
        device_ok(d),
    ensures
        forall|k: int|
            0 <= k < rtsp_slot(d).len() ==> #[trigger] rtsp_slot(d)[k] != ' '
                && rtsp_slot(d)[k] != '\n',
{
    match d.url_rtsp {
        Some(u) => {
            lemma_url_free_of_separators(u);
        },
        None => {},
    }
}

/// A faithful record's line splits on spaces into exactly the two label
/// tokens and the two value slots, in their fixed positions.
proof fn lemma_line_body_tokens(d: DeviceModel)
    requires
        device_ok(d),
    ensures
        split_char(line_body(d), ' ') == seq![
            seq!['I', 'P', ':'],
            rtsp_slot(d),
            seq!['O', 'N', 'V', 'I', 'F', ':'],
            d.url_onvif,
        ],
{
    let a1 = seq!['I', 'P', ':'];
    let a2 = seq!['O', 'N', 'V', 'I', 'F', ':'];
    let r = rtsp_slot(d);
    let v = d.url_onvif;
    lemma_rtsp_slot_clean(d);
    lemma_url_free_of_separators(v);
    let rest2 = a2 + seq![' '] + v;
    let rest1 = r + seq![' '] + rest2;
    assert(line_body(d) =~= a1 + seq![' '] + rest1);
    lemma_split_char_step(a1, rest1, ' ');
    assert(rest1 =~= r + seq![' '] + rest2);
    lemma_split_char_step(r, rest2, ' ');
    assert(rest2 =~= a2 + seq![' '] + v);
    lemma_split_char_step(a2, v, ' ');
    lemma_split_char_whole(v, ' ');
    assert(split_char(line_body(d), ' ') =~= seq![a1, r, a2, v]);
}

/// Reading back the line written for a faithful record yields that record.
proof fn lemma_parse_line_body(d: DeviceModel)
    requires
        device_ok(d),
    ensures
        parse_line(line_body(d)) == Some(d),
{
    lemma_line_body_tokens(d);
    let toks = split_char(line_body(d), ' ');
    assert(toks[1] == rtsp_slot(d));
    assert(toks[3] == d.url_onvif);
    match d.url_rtsp {
        Some(u) => {
            lemma_url_free_of_separators(u);
            assert(parse_line(line_body(d)) == Some(
                DeviceModel { url_rtsp: Some(u), url_onvif: d.url_onvif },
            ));
        },
        None => {
            assert(parse_line(line_body(d)) == Some(
                DeviceModel { url_rtsp: None, url_onvif: d.url_onvif },
            ));
        },
    }
}

/// No character of a faithful record's line body is a newline.
proof fn lemma_line_body_no_newline(d: DeviceModel)
    requires
        device_ok(d),
    ensures
        forall|k: int| 0 <= k < line_body(d).len() ==> #[trigger] line_body(d)[k] != '\n',
{
    let lb = line_body(d);
    let r = rtsp_slot(d);
    let a = r.len() as int;
    lemma_rtsp_slot_clean(d);
    lemma_url_free_of_separators(d.url_onvif);
    assert forall|k: int| 0 <= k < lb.len() implies #[trigger] lb[k] != '\n' by {
        if k < 4 {
            assert(lb[k] == seq!['I', 'P', ':', ' '][k]);
        } else if k < 4 + a {
            assert(lb[k] == r[k - 4]);
        } else if k < 12 + a {
            assert(lb[k] == seq![' ', 'O', 'N', 'V', 'I', 'F', ':', ' '][k - 4 - a]);
        } else {
            assert(lb[k] == d.url_onvif[k - 12 - a]);
        }
    }
}

/// The rendered text of faithful records splits on newlines into one
/// piece per record plus the empty piece after the final newline.
proof fn lemma_rendered_split(devs: Seq<DeviceModel>)
    requires
        forall|i: int| 0 <= i < devs.len() ==> device_ok(#[trigger] devs[i]),
    ensures
        split_char(rendered(devs), '\n') == devs.map_values(|d: DeviceModel| line_body(d))
            + seq![Seq::<char>::empty()],
    decreases devs.len(),
{
    let bodies = devs.map_values(|d: DeviceModel| line_body(d));
    if devs.len() == 0 {
        assert(rendered(devs) =~= Seq::<char>::empty());
        lemma_split_char_whole(Seq::<char>::empty(), '\n');
        assert(split_char(rendered(devs), '\n') =~= seq![Seq::<char>::empty()]);
        assert(bodies + seq![Seq::<char>::empty()] =~= seq![Seq::<char>::empty()]);
    } else {
        let d0 = devs[0];
        let rest = devs.drop_first();
        assert(device_ok(d0));
        lemma_line_body_no_newline(d0);
        assert(rendered(devs) =~= line_body(d0) + seq!['\n'] + rendered(rest));
        lemma_split_char_step(line_body(d0), rendered(rest), '\n');
        assert forall|i: int| 0 <= i < rest.len() implies device_ok(#[trigger] rest[i]) by {
            assert(rest[i] == devs[i + 1]);
        }
        lemma_rendered_split(rest);
        assert(split_char(rendered(devs), '\n') =~= bodies + seq![Seq::<char>::empty()]);
    }
}

/// Parsing the line bodies of faithful records yields those records.
proof fn lemma_parse_bodies(devs: Seq<DeviceModel>)
    requires
        forall|i: int| 0 <= i < devs.len() ==> device_ok(#[trigger] devs[i]),
    ensures
        parse_lines(devs.map_values(|d: DeviceModel| line_body(d))) == Some(devs),
    decreases devs.len(),
{
    let bodies = devs.map_values(|d: DeviceModel| line_body(d));
    if devs.len() == 0 {
        assert(Some(Seq::<DeviceModel>::empty()) =~= Some(devs));
    } else {
        let rest = devs.drop_first();
        assert(bodies[0] == line_body(devs[0]));
        lemma_parse_line_body(devs[0]);
        assert forall|i: int| 0 <= i < rest.len() implies device_ok(#[trigger] rest[i]) by {
            assert(rest[i] == devs[i + 1]);
        }
        lemma_parse_bodies(rest);
        assert(bodies.drop_first() =~= rest.map_values(|d: DeviceModel| line_body(d)));
        assert(seq![devs[0]] + rest =~= devs);
    }
}

/// One line per record: the text saved for faithful records reads back,
/// line by line, as exactly their line bodies, in input order. Each line
/// in the text is newline-terminated, so the piece after the final
/// newline is empty and is no line of its own.
pub proof fn lemma_one_line_per_record(devs: Seq<DeviceModel>)
    requires
        forall|i: int| 0 <= i < devs.len() ==> device_ok(#[trigger] devs[i]),
    ensures
        split_lines(rendered(devs)) == devs.map_values(|d: DeviceModel| line_body(d)),
{
    lemma_rendered_split(devs);
    let p = split_char(rendered(devs), '\n');
    assert(p.last() == Seq::<char>::empty());
    assert(split_lines(rendered(devs)) =~= devs.map_values(|d: DeviceModel| line_body(d)));
}

/// Round trip: loading what was saved gives back exactly the records that
/// were saved, in the same order. For any non-empty sequence of faithful
/// records, the text that `serialize_devices` produces parses back, via
/// `parse_devices`, into the same sequence.
pub proof fn lemma_round_trip(devs: Seq<DeviceModel>)
    requires
        devs.len() > 0,
        forall|i: int| 0 <= i < devs.len() ==> device_ok(#[trigger] devs[i]),
    ensures
        load_from(rendered(devs)) == Ok::<Seq<DeviceModel>, crate::errors::CacheError>(devs),
{
    let s = rendered(devs);
    let bodies = devs.map_values(|d: DeviceModel| line_body(d));
    // the text is non-empty and starts with the marker
    assert(s =~= line_body(devs[0]) + seq!['\n'] + rendered(devs.drop_first()));
    assert(line_body(devs[0])[0] == 'I');
    assert(line_body(devs[0])[1] == 'P');
    assert(s[0] == 'I' && s[1] == 'P');
    assert(s.len() >= 2);
    assert(contains_marker(s));
    // its lines are exactly the line bodies
    lemma_rendered_split(devs);
    let p = split_char(s, '\n');
    assert(p.last() == Seq::<char>::empty());
    assert(split_lines(s) =~= bodies);
    // and those parse back into the records
    lemma_parse_bodies(devs);
}

} // verus!
