//! Loading the mesh objects of an embedded 3MF library: the model part is read
//! out of the zip package and its XML events are folded by `MeshCollector`.

use vstd::prelude::*;
use vstd::string::StringSliceAdditionalSpecFns;

use quick_xml::events::Event;
use quick_xml::Reader;
use std::io::Cursor;
use zip::ZipArchive;

use crate::error::BuilderError;
use crate::model::{
    lemma_scan_meshes_complete, mesh_views, meshes_complete, scan, Mesh, MeshCollector, MeshView,
    VertexText, VertexTextView, XmlAttribute, XmlEvent, XmlEventView, XmlTag,
};
use crate::text::push_str;

verus! {

// ---------------------------------------------------------------------------
// Outside types
// ---------------------------------------------------------------------------

#[verifier::external_type_specification]
#[verifier::external_body]
#[verifier::reject_recursive_types(R)]
pub struct ExXmlReader<R>(Reader<R>);

#[verifier::external_type_specification]
#[verifier::external_body]
#[verifier::reject_recursive_types(R)]
pub struct ExZipArchive<R>(ZipArchive<R>);

#[verifier::external_type_specification]
#[verifier::external_body]
#[verifier::reject_recursive_types(T)]
pub struct ExCursor<T>(Cursor<T>);

// ---------------------------------------------------------------------------
// Trusted calls into quick_xml
// ---------------------------------------------------------------------------

/// The results that successive `Reader::read_event` calls give on a reader over
/// `text` with text trimming on, each event turned into an `XmlEvent` and taken
/// by its view, each error taken as its text (`Display`), up to and including
/// the first `Eof` or error.
pub uninterp spec fn xml_events(text: Seq<char>) -> Seq<Result<XmlEventView, Seq<char>>>;

/// The results that the reader's next `read_event` calls give, in the form of
/// `xml_events`: up to and including the first `Eof` or error.
pub uninterp spec fn xml_pending(reader: Reader<&[u8]>) -> Seq<Result<XmlEventView, Seq<char>>>;

/// `Reader::from_str` with `trim_text(true)` set on its configuration: a reader
/// that will give the events of `xml`. There is always at least one result (the
/// last is `Eof` or an error).
#[verifier::external_body]
fn trimmed_xml_reader<'a>(xml: &'a str) -> (r: Reader<&'a [u8]>)
    ensures
        xml_pending(r) == xml_events(xml@),
        xml_pending(r).len() > 0,
{
    let mut reader = Reader::from_str(xml);
    reader.config_mut().trim_text(true);
    reader
}

/// `Reader::read_event`, with the event turned into an owned `XmlEvent` (start
/// and empty-element tags with their local name and their attributes: raw key,
/// raw value, `None` for an attribute that fails to parse; end tags with their
/// local name; `Eof`; `Other` for every other event) and an error into its text.
///
/// Stated: the call gives the first pending result. That result is the last
/// one pending when it is `Eof` or an error; after any other event the reader
/// has the rest pending, and at least one. Nothing is stated of the reader
/// after `Eof` or an error (it goes on answering `Eof`, or, after some errors,
/// goes on parsing).
#[verifier::external_body]
fn read_xml_event(reader: &mut Reader<&[u8]>) -> (r: Result<XmlEvent, String>)
    ensures
        xml_pending(*old(reader)).len() > 0 ==> {
            &&& match r {
                Ok(e) => xml_pending(*old(reader))[0] == Ok::<XmlEventView, Seq<char>>(e@),
                Err(t) => xml_pending(*old(reader))[0] == Err::<XmlEventView, Seq<char>>(t@),
            }
            &&& (r is Err || r matches Ok(XmlEvent::Eof)) ==> xml_pending(*old(reader)).len() == 1
            &&& (r matches Ok(e) && !(e is Eof)) ==> {
                &&& xml_pending(*final(reader)) == xml_pending(*old(reader)).drop_first()
                &&& xml_pending(*final(reader)).len() > 0
            }
        },
{
    let event = match reader.read_event() { Ok(event) => event, Err(e) => return Err(e.to_string()) };
    Ok(match event {
        Event::Start(e) | Event::Empty(e) => XmlEvent::Open(XmlTag {
            name: e.local_name().into_inner().to_string(),
            attributes: e.attributes().map(|a| a.ok().map(|a| XmlAttribute {
                key: a.key.into_inner().to_string(),
                value: a.value.into_owned(),
            })).collect(),
        }),
        Event::End(e) => XmlEvent::Close(e.local_name().into_inner().to_string()),
        Event::Eof => XmlEvent::Eof,
        _ => XmlEvent::Other,
    })
}

// ---------------------------------------------------------------------------
// Trusted calls into zip
// ---------------------------------------------------------------------------

/// `None` when `ZipArchive::new` accepts these bytes (it reads the central
/// directory, which depends on the bytes alone), else the text (`Display`) of
/// its error.
pub uninterp spec fn zip_open_error(bytes: Seq<u8>) -> Option<Seq<char>>;

/// `ZipArchive::new` accepts these bytes.
pub open spec fn zip_opens(bytes: Seq<u8>) -> bool {
    zip_open_error(bytes) is None
}

/// The bytes that an archive over an in-memory cursor reads from.
pub uninterp spec fn zip_source(archive: ZipArchive<Cursor<&[u8]>>) -> Seq<u8>;

/// `None` when `ZipArchive::by_name(name)` finds and opens the entry `name` in
/// the zip archive made of `bytes`, else the text of its error.
pub uninterp spec fn zip_entry_error(bytes: Seq<u8>, name: Seq<char>) -> Option<Seq<char>>;

/// What `Read::read_to_string` gives on the entry `name` of the zip archive made
/// of `bytes`, once `by_name` has opened it: the entry's text, or the text of the
/// read's error.
pub uninterp spec fn zip_entry_read(bytes: Seq<u8>, name: Seq<char>) -> Result<Seq<char>, Seq<char>>;

/// `ZipArchive::new` over a cursor on `bytes`, its error turned into its text.
#[verifier::external_body]
fn open_archive<'a>(bytes: &'a [u8]) -> (r: Result<ZipArchive<Cursor<&'a [u8]>>, String>)
    ensures
        match r {
            Ok(a) => zip_open_error(bytes@) is None && zip_source(a) == bytes@,
            Err(t) => zip_open_error(bytes@) == Some(t@),
        },
{
    match ZipArchive::new(Cursor::new(bytes)) {
        Ok(a) => Ok(a),
        Err(e) => Err(e.to_string()),
    }
}

/// `ZipArchive::by_name(name)` followed by `Read::read_to_string` of that
/// entry, each error turned into its text: the outer error is the archive's,
/// the inner one the read's.
#[verifier::external_body]
fn read_archive_text(archive: &mut ZipArchive<Cursor<&[u8]>>, name: &str) -> (r: Result<
    Result<String, String>,
    String,
>)
    ensures
        zip_source(*final(archive)) == zip_source(*old(archive)),
        match r {
            Err(t) => zip_entry_error(zip_source(*old(archive)), name@) == Some(t@),
            Ok(read) => {
                &&& zip_entry_error(zip_source(*old(archive)), name@) is None
                &&& match read {
                    Ok(text) => zip_entry_read(zip_source(*old(archive)), name@) == Ok::<
                        Seq<char>,
                        Seq<char>,
                    >(text@),
                    Err(t) => zip_entry_read(zip_source(*old(archive)), name@) == Err::<
                        Seq<char>,
                        Seq<char>,
                    >(t@),
                }
            },
        },
{
    let mut file = match archive.by_name(name) {
        Ok(file) => file,
        Err(e) => return Err(e.to_string()),
    };
    let mut text = String::new();
    match std::io::Read::read_to_string(&mut file, &mut text) {
        Ok(_) => Ok(Ok(text)),
        Err(e) => Ok(Err(e.to_string())),
    }
}

// ---------------------------------------------------------------------------
// Loading a library
// ---------------------------------------------------------------------------

/// The model part of a 3MF package.
pub open spec fn model_entry() -> Seq<char> {
    "3D/3dmodel.model"@
}

/// The text of the model part of the package `bytes`, when the package opens,
/// the part opens and it reads as text.
pub open spec fn model_text(bytes: Seq<u8>) -> Option<Seq<char>> {
    if zip_opens(bytes) && zip_entry_error(bytes, model_entry()) is None {
        match zip_entry_read(bytes, model_entry()) {
            Ok(text) => Some(text),
            Err(_) => None,
        }
    } else {
        None
    }
}

/// The events of a model text up to `Eof`, when it reads without error.
pub open spec fn model_events(text: Seq<char>) -> Option<Seq<XmlEventView>> {
    let evs = xml_events(text);
    if evs.len() > 0 && evs.last() == Ok::<XmlEventView, Seq<char>>(XmlEventView::Eof) && (forall|i: int|
        0 <= i < evs.len() - 1 ==> (#[trigger] evs[i]) is Ok) {
        Some(evs.drop_last().map_values(|e: Result<XmlEventView, Seq<char>>| e->Ok_0))
    } else {
        None
    }
}

/// The text of the error that ends the events of a model text (empty when the
/// last result is no error).
pub open spec fn xml_error_detail(text: Seq<char>) -> Seq<char> {
    match xml_events(text).last() {
        Err(detail) => detail,
        Ok(_) => Seq::empty(),
    }
}

/// The meshes of a model text: the fold of its events, when they read without
/// error.
pub open spec fn model_meshes(text: Seq<char>) -> Option<Seq<MeshView<VertexTextView>>> {
    match model_events(text) {
        Some(evs) => Some(scan(evs).meshes),
        None => None,
    }
}

/// Events read so far, as reader results.
spec fn as_results(seen: Seq<XmlEventView>) -> Seq<Result<XmlEventView, Seq<char>>> {
    seen.map_values(|e: XmlEventView| Ok::<XmlEventView, Seq<char>>(e))
}

/// The message for a model whose XML cannot be read.
pub open spec fn invalid_xml_message(label: Seq<char>, detail: Seq<char>) -> Seq<char> {
    "Invalid 3MF XML in "@ + label + ": "@ + detail
}

/// The message for a model without any complete mesh object.
pub open spec fn no_mesh_message(label: Seq<char>) -> Seq<char> {
    "No mesh objects were found in embedded asset "@ + label + "."@
}

/// Loads the mesh objects of the 3MF package `bytes`; `label` names the
/// package in messages.
///
/// The package must open as a zip archive and its `3D/3dmodel.model` entry
/// must open (else `Zip`, with the archive error's text) and read as text
/// (else `Io`, with the read error's text); its XML must read without error up
/// to the end (else the "Invalid 3MF XML" message with the reader error's
/// text); the meshes are the fold of its events (`scan`), and there must be at
/// least one (else the "No mesh objects" message).
pub fn load_3mf_bytes(bytes: &[u8], label: &str) -> (r: Result<Vec<Mesh<VertexText>>, BuilderError>)
    ensures
        r is Ok <==> ({
            &&& model_text(bytes@) is Some
            &&& model_meshes(model_text(bytes@)->Some_0) is Some
            &&& model_meshes(model_text(bytes@)->Some_0)->Some_0.len() > 0
        }),
        r matches Ok(ms) ==> model_meshes(model_text(bytes@)->Some_0) == Some(mesh_views(ms@))
            && meshes_complete(mesh_views(ms@)),
        zip_open_error(bytes@) matches Some(t) ==> (r matches Err(BuilderError::Zip(m)) && m@ == t),
        zip_opens(bytes@) ==> (zip_entry_error(bytes@, model_entry()) matches Some(t) ==> (r matches Err(
            BuilderError::Zip(m),
        ) && m@ == t)),
        zip_opens(bytes@) && zip_entry_error(bytes@, model_entry()) is None ==> (zip_entry_read(
            bytes@,
            model_entry(),
        ) matches Err(t) ==> (r matches Err(BuilderError::Io(m)) && m@ == t)),
        model_text(bytes@) is Some && model_meshes(model_text(bytes@)->Some_0) is None ==> (r matches Err(
            BuilderError::Message(m),
        ) && m@ == invalid_xml_message(label@, xml_error_detail(model_text(bytes@)->Some_0))),
        model_text(bytes@) is Some && model_meshes(model_text(bytes@)->Some_0) == Some(
            Seq::<MeshView<VertexTextView>>::empty(),
        ) ==> (r matches Err(BuilderError::Message(m)) && m@ == no_mesh_message(label@)),
{
    let mut archive = match open_archive(bytes) {
        Ok(a) => a,
        Err(e) => {
            return Err(BuilderError::Zip(e));
        },
    };
    let text = match read_archive_text(&mut archive, "3D/3dmodel.model") {
        Ok(Ok(t)) => t,
        Ok(Err(e)) => {
            return Err(BuilderError::Io(e));
        },
        Err(e) => {
            return Err(BuilderError::Zip(e));
        },
    };
    assert(model_text(bytes@) == Some(text@));
    let mut reader = trimmed_xml_reader(text.as_str());
    let mut collector = MeshCollector::new();
    let ghost mut seen: Seq<XmlEventView> = Seq::empty();
    let ghost evs = xml_events(text@);
    assert(evs =~= as_results(seen) + xml_pending(reader));
    let mut failed: Option<String> = None;
    loop
        invariant_except_break
            failed is None,
            xml_pending(reader).len() > 0,
            evs == as_results(seen) + xml_pending(reader),
        invariant
            evs == xml_events(text@),
            collector@ == scan(seen),
        ensures
            failed is None ==> evs == as_results(seen).push(Ok(XmlEventView::Eof)),
            failed matches Some(d) ==> evs == as_results(seen).push(Err(d@)),
            collector@ == scan(seen),
        decreases xml_pending(reader).len(),
    {
        let ghost before = xml_pending(reader);
        match read_xml_event(&mut reader) {
            Ok(XmlEvent::Eof) => {
                assert(before =~= seq![Ok::<XmlEventView, Seq<char>>(XmlEventView::Eof)]);
                break;
            },
            Ok(ev) => {
                collector.feed(&ev);
                proof {
                    assert(seen.push(ev@).drop_last() =~= seen);
                    assert(as_results(seen.push(ev@)) =~= as_results(seen).push(Ok(ev@)));
                    assert(before =~= seq![Ok::<XmlEventView, Seq<char>>(ev@)] + xml_pending(
                        reader,
                    ));
                    seen = seen.push(ev@);
                }
            },
            Err(e) => {
                assert(before =~= seq![Err::<XmlEventView, Seq<char>>(e@)]);
                failed = Some(e);
                break;
            },
        }
    }
    proof {
        let mapped = as_results(seen);
        if failed is None {
            assert(evs.drop_last() =~= mapped);
            assert(evs.drop_last().map_values(|e: Result<XmlEventView, Seq<char>>| e->Ok_0) =~= seen);
            assert forall|i: int| 0 <= i < evs.len() - 1 implies (#[trigger] evs[i]) is Ok by {
                assert(evs[i] == mapped[i]);
            }
        }
    }
    if let Some(detail) = failed {
        let mut m = String::new();
        push_str(&mut m, "Invalid 3MF XML in ");
        push_str(&mut m, label);
        push_str(&mut m, ": ");
        push_str(&mut m, detail.as_str());
        assert(m@ =~= invalid_xml_message(label@, detail@));
        assert(xml_error_detail(text@) == detail@);
        return Err(BuilderError::Message(m));
    }
    let meshes = collector.finish();
    if meshes.len() == 0 {
        let mut m = String::new();
        push_str(&mut m, "No mesh objects were found in embedded asset ");
        push_str(&mut m, label);
        push_str(&mut m, ".");
        assert(m@ =~= no_mesh_message(label@));
        assert(mesh_views(meshes@) =~= Seq::<MeshView<VertexTextView>>::empty());
        return Err(BuilderError::Message(m));
    }
    proof {
        lemma_scan_meshes_complete(seen);
    }
    Ok(meshes)
}

} // verus!
