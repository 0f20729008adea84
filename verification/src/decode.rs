//! The trusted boundary to the binary section decoder (the `wasmparser`
//! crate): each wrapper turns one opaque payload into the plain records that
//! the verified graph builder consumes.

use vstd::prelude::*;

use crate::builder::{
    build_graph_traced, records_view, spec_build, spec_scan, spec_scan_truncated, ExportDecl,
    ImportArg, InstanceDecl, NameBinding, SectionRecord, SectionRecordView,
};
use crate::model::CompositionGraph;

verus! {

/// A fatal decoding failure: the input bytes are not a well-formed binary of
/// the expected kind. The message carries the decoder's diagnosis.
#[derive(Debug)]
pub struct DecodeError {
    pub message: String,
}

#[verifier::external_type_specification]
#[verifier::external_body]
pub struct ExPayload<'a>(wasmparser::Payload<'a>);

/// The record stream that the decoder extracts from the given bytes:
/// `Some` of the depth-tagged section records when the bytes decode, `None`
/// when the decoder reports a malformed payload. Decoding is a pure function
/// of the bytes, so the result is named rather than written out.
pub uninterp spec fn spec_decoded(bytes: Seq<u8>) -> Option<Seq<SectionRecordView>>;

/// Relies on matching `wasmparser::Payload`: the record of one payload, one
/// arm per variant the builder distinguishes, each converted by the reader
/// wrapper below it; payloads of other kinds carry no record.
#[verifier::external_body]
fn payload_record(p: &wasmparser::Payload<'_>) -> Result<Option<SectionRecord>, DecodeError> {
    Ok(match p {
        wasmparser::Payload::ComponentSection { .. } => Some(SectionRecord::EnterNested),
        wasmparser::Payload::ModuleSection { .. } => Some(SectionRecord::EnterNested),
        wasmparser::Payload::End(_) => Some(SectionRecord::ExitNested),
        wasmparser::Payload::CustomSection(_) => Some(SectionRecord::Names(name_bindings(p))),
        wasmparser::Payload::ComponentImportSection(_) => Some(SectionRecord::Imports(import_flags(p)?)),
        wasmparser::Payload::ComponentInstanceSection(_) => Some(SectionRecord::Instances(instance_decls(p)?)),
        wasmparser::Payload::ComponentAliasSection(_) => Some(SectionRecord::Aliases(alias_decls(p)?)),
        wasmparser::Payload::ComponentExportSection(_) => Some(SectionRecord::Exports(export_decls(p)?)),
        _ => None,
    })
}

/// Relies on `CustomSectionReader::as_known` and the component-name
/// subsection readers: the instance-name bindings of a component-name custom
/// section, skipping malformed entries; empty for any other payload.
#[verifier::external_body]
fn name_bindings(p: &wasmparser::Payload<'_>) -> Vec<NameBinding> {
    let mut out = Vec::new();
    if let wasmparser::Payload::CustomSection(r) = p {
        if let wasmparser::KnownCustom::ComponentName(nr) = r.as_known() {
            for sub in nr {
                if let Ok(wasmparser::ComponentName::Instances(ns)) = sub {
                    for naming in ns.into_iter().flatten() {
                        out.push(NameBinding { index: naming.index, name: naming.name.to_string() });
                    }
                }
            }
        }
    }
    out
}

/// Relies on the component import section reader: one flag per import,
/// `true` when the import is of instance type; empty for any other payload.
#[verifier::external_body]
fn import_flags(p: &wasmparser::Payload<'_>) -> Result<Vec<bool>, DecodeError> {
    let mut out = Vec::new();
    if let wasmparser::Payload::ComponentImportSection(r) = p {
        for imp in r.clone() {
            let imp = imp.map_err(|e| DecodeError { message: e.to_string() })?;
            out.push(matches!(imp.ty, wasmparser::ComponentTypeRef::Instance(_)));
        }
    }
    Ok(out)
}

/// Relies on the component instance section reader: each entry as either a
/// real instantiation with its wiring arguments or a from-exports bundle.
#[verifier::external_body]
fn instance_decls(p: &wasmparser::Payload<'_>) -> Result<Vec<InstanceDecl>, DecodeError> {
    let mut out = Vec::new();
    if let wasmparser::Payload::ComponentInstanceSection(r) = p {
        for inst in r.clone() {
            out.push(match inst.map_err(|e| DecodeError { message: e.to_string() })? {
                wasmparser::ComponentInstance::Instantiate { component_index, args } =>
                    InstanceDecl::Instantiate {
                        component_index,
                        args: args.iter().map(|a| ImportArg { name: a.name.to_string(), index: a.index }).collect(),
                    },
                wasmparser::ComponentInstance::FromExports(_) => InstanceDecl::FromExports,
            });
        }
    }
    Ok(out)
}

/// Relies on the component alias section reader: `Some(source)` for each
/// alias that re-exports an instance from another instance, `None` for any
/// other alias.
#[verifier::external_body]
fn alias_decls(p: &wasmparser::Payload<'_>) -> Result<Vec<Option<u32>>, DecodeError> {
    let mut out = Vec::new();
    if let wasmparser::Payload::ComponentAliasSection(r) = p {
        for alias in r.clone() {
            out.push(match alias.map_err(|e| DecodeError { message: e.to_string() })? {
                wasmparser::ComponentAlias::InstanceExport {
                    kind: wasmparser::ComponentExternalKind::Instance,
                    instance_index,
                    ..
                } => Some(instance_index),
                _ => None,
            });
        }
    }
    Ok(out)
}

/// Relies on the component export section reader and
/// `ComponentExternName::full_name`: each export's full name (version suffix
/// applied), whether it exports an instance, and the exported item's index.
#[verifier::external_body]
fn export_decls(p: &wasmparser::Payload<'_>) -> Result<Vec<ExportDecl>, DecodeError> {
    let mut out = Vec::new();
    if let wasmparser::Payload::ComponentExportSection(r) = p {
        for e in r.clone() {
            let e = e.map_err(|err| DecodeError { message: err.to_string() })?;
            out.push(ExportDecl {
                name: e.name.full_name().to_string(),
                is_instance: matches!(e.kind, wasmparser::ComponentExternalKind::Instance),
                index: e.index,
            });
        }
    }
    Ok(out)
}

/// Relies on `wasmparser::Parser::parse_all` (and, through `payload_record`,
/// on the section readers): splits a binary into its payload stream and
/// converts each payload into its section record, in stream order; the first
/// malformed payload aborts with its error. Decoding is deterministic in the
/// bytes, so the outcome is exactly `spec_decoded` of them.
#[verifier::external_body]
fn decode_records(bytes: &[u8]) -> (r: Result<Vec<SectionRecord>, DecodeError>)
    ensures
        match r {
            Ok(v) => spec_decoded(bytes@) == Some(records_view(v@)),
            Err(_) => spec_decoded(bytes@) is None,
        },
{
    let mut records: Vec<SectionRecord> = Vec::new();
    for payload in wasmparser::Parser::new(0).parse_all(bytes) {
        let p = payload.map_err(|e| DecodeError { message: e.to_string() })?;
        if let Some(record) = payload_record(&p)? {
            records.push(record);
        }
    }
    Ok(records)
}

/// Parse a WebAssembly component binary, extract its composition graph, and
/// report the alias-ceiling diagnostic: the trusted decoder yields the
/// section records of the bytes, and the verified builder turns them into
/// the graph. The result is `Ok` exactly when the bytes decode; the graph is
/// then the builder's graph for the bytes' own record stream (well-formed,
/// host-classified), and the flag is true exactly when some alias
/// resolution of the scan hit the resolver's hop ceiling — a non-fatal
/// condition the caller should log, since that resolution is not guaranteed
/// canonical. A malformed binary yields the decoder's error.
pub fn parse_component_traced(bytes: &[u8]) -> (r: Result<(CompositionGraph, bool), DecodeError>)
    ensures
        match r {
            Ok(p) => {
                &&& p.0.wf()
                &&& spec_decoded(bytes@) is Some
                &&& p.0@ == spec_build(spec_decoded(bytes@)->Some_0)
                &&& p.1 == spec_scan_truncated(spec_scan(spec_decoded(bytes@)->Some_0))
            },
            Err(_) => spec_decoded(bytes@) is None,
        },
{
    match decode_records(bytes) {
        Ok(records) => {
            let built = build_graph_traced(&records);
            proof {
                assert(built.0@ == spec_build(records_view(records@)));
            }
            Ok(built)
        },
        Err(e) => Err(e),
    }
}

/// Parse a WebAssembly component binary and extract its composition graph.
/// The result is `Ok` exactly when the bytes decode, and the graph is the
/// builder's graph for the bytes' own record stream; the traced form above
/// also reports the alias-ceiling diagnostic.
pub fn parse_component(bytes: &[u8]) -> (r: Result<CompositionGraph, DecodeError>)
    ensures
        match r {
            Ok(g) => g.wf() && spec_decoded(bytes@) is Some && g@ == spec_build(
                spec_decoded(bytes@)->Some_0,
            ),
            Err(_) => spec_decoded(bytes@) is None,
        },
{
    match parse_component_traced(bytes) {
        Ok(p) => Ok(p.0),
        Err(e) => Err(e),
    }
}

} // verus!
