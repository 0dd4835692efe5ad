//! The globals of the compositor that a capture takes part in.

use vstd::prelude::*;
use wayland_client::protocol::wl_output::WlOutput;
use wayland_client::protocol::wl_shm::WlShm;
use wayland_client::Proxy;
use wayland_protocols::ext::foreign_toplevel_list::v1::client::ext_foreign_toplevel_list_v1::ExtForeignToplevelListV1;
use wayland_protocols::ext::image_capture_source::v1::client::ext_foreign_toplevel_image_capture_source_manager_v1::ExtForeignToplevelImageCaptureSourceManagerV1;
use wayland_protocols::ext::image_capture_source::v1::client::ext_output_image_capture_source_manager_v1::ExtOutputImageCaptureSourceManagerV1;
use wayland_protocols::ext::image_copy_capture::v1::client::ext_image_copy_capture_manager_v1::ExtImageCopyCaptureManagerV1;

verus! {

/// A global that is bound where the compositor announces it.
#[derive(Clone, Copy, Debug, PartialEq, Eq, Structural)]
pub enum Global {
    ToplevelList,
    Output,
    Shm,
    CopyManager,
    OutputSources,
    ToplevelSources,
}

/// The name of the interface behind a global.
pub open spec fn interface_name(global: Global) -> Seq<char> {
    match global {
        Global::ToplevelList => "ext_foreign_toplevel_list_v1"@,
        Global::Output => "wl_output"@,
        Global::Shm => "wl_shm"@,
        Global::CopyManager => "ext_image_copy_capture_manager_v1"@,
        Global::OutputSources => "ext_output_image_capture_source_manager_v1"@,
        Global::ToplevelSources => "ext_foreign_toplevel_image_capture_source_manager_v1"@,
    }
}

/// The latest version of an interface that can be spoken.
pub open spec fn spoken_version(global: Global) -> u32 {
    match global {
        Global::Output => 4,
        Global::Shm => 3,
        _ => 1,
    }
}

/// `Proxy::interface` of `ExtForeignToplevelListV1`: the name of the
/// interface and the latest version that the bindings know.
#[verifier::external_body]
fn toplevel_list_interface() -> (interface: (&'static str, u32))
    ensures
        interface.0@ == "ext_foreign_toplevel_list_v1"@,
        interface.1 == 1,
{
    let interface = ExtForeignToplevelListV1::interface();
    (interface.name, interface.version)
}

/// `Proxy::interface` of `WlOutput`: the name of the
/// interface and the latest version that the bindings know.
#[verifier::external_body]
fn output_interface() -> (interface: (&'static str, u32))
    ensures
        interface.0@ == "wl_output"@,
        interface.1 == 4,
{
    let interface = WlOutput::interface();
    (interface.name, interface.version)
}

/// `Proxy::interface` of `WlShm`: the name of the
/// interface and the latest version that the bindings know.
#[verifier::external_body]
fn shm_interface() -> (interface: (&'static str, u32))
    ensures
        interface.0@ == "wl_shm"@,
        interface.1 == 3,
{
    let interface = WlShm::interface();
    (interface.name, interface.version)
}

/// `Proxy::interface` of `ExtImageCopyCaptureManagerV1`: the name of the
/// interface and the latest version that the bindings know.
#[verifier::external_body]
fn copy_manager_interface() -> (interface: (&'static str, u32))
    ensures
        interface.0@ == "ext_image_copy_capture_manager_v1"@,
        interface.1 == 1,
{
    let interface = ExtImageCopyCaptureManagerV1::interface();
    (interface.name, interface.version)
}

/// `Proxy::interface` of `ExtOutputImageCaptureSourceManagerV1`: the name of the
/// interface and the latest version that the bindings know.
#[verifier::external_body]
fn output_sources_interface() -> (interface: (&'static str, u32))
    ensures
        interface.0@ == "ext_output_image_capture_source_manager_v1"@,
        interface.1 == 1,
{
    let interface = ExtOutputImageCaptureSourceManagerV1::interface();
    (interface.name, interface.version)
}

/// `Proxy::interface` of `ExtForeignToplevelImageCaptureSourceManagerV1`: the name of the
/// interface and the latest version that the bindings know.
#[verifier::external_body]
fn toplevel_sources_interface() -> (interface: (&'static str, u32))
    ensures
        interface.0@ == "ext_foreign_toplevel_image_capture_source_manager_v1"@,
        interface.1 == 1,
{
    let interface = ExtForeignToplevelImageCaptureSourceManagerV1::interface();
    (interface.name, interface.version)
}

/// The smaller of two versions.
pub open spec fn lesser(a: u32, b: u32) -> u32 {
    if a <= b {
        a
    } else {
        b
    }
}

/// The latest version of outputs that is put to use.
pub const OUTPUT_CAP: u32 = 4;

/// The version to bind where `version` is announced.
pub open spec fn bound_version(global: Global, version: u32) -> u32 {
    let spoken = lesser(version, spoken_version(global));
    if global == Global::Output {
        lesser(spoken, OUTPUT_CAP)
    } else {
        spoken
    }
}

/// What to bind where an interface is announced: the global of that name, at
/// the version to bind it at.
pub open spec fn binding(interface: Seq<char>, version: u32) -> Option<(Global, u32)> {
    if exists|g: Global| #[trigger] interface_name(g) == interface {
        let global = choose|g: Global| #[trigger] interface_name(g) == interface;
        Some((global, bound_version(global, version)))
    } else {
        None
    }
}

/// No two globals share the name of an interface.
pub proof fn interface_names_differ(a: Global, b: Global)
    ensures
        interface_name(a) == interface_name(b) <==> a == b,
{
    reveal_strlit("ext_foreign_toplevel_list_v1");
    reveal_strlit("wl_output");
    reveal_strlit("wl_shm");
    reveal_strlit("ext_image_copy_capture_manager_v1");
    reveal_strlit("ext_output_image_capture_source_manager_v1");
    reveal_strlit("ext_foreign_toplevel_image_capture_source_manager_v1");
    assert(interface_name(a).len() == interface_name(b).len() ==> a == b);
}

/// A global is bound under the name of its interface and no other.
pub proof fn bindings_go_by_name(interface: Seq<char>, version: u32, global: Global)
    ensures
        binding(interface, version) == Some((global, bound_version(global, version))) <==> interface
            == interface_name(global),
{
    if interface == interface_name(global) {
        let g = choose|g: Global| #[trigger] interface_name(g) == interface;
        interface_names_differ(g, global);
    }
}

/// A global is never bound at a later version than is announced, or than can
/// be spoken.
pub proof fn bound_versions_are_understood(global: Global, version: u32)
    ensures
        bound_version(global, version) <= version,
        bound_version(global, version) <= spoken_version(global),
        global == Global::Output ==> bound_version(global, version) <= OUTPUT_CAP,
{
}

fn bind_at(version: u32, spoken: u32, cap: u32) -> (v: u32)
    ensures
        v == lesser(lesser(version, spoken), cap),
{
    let least: u32 = if version <= spoken { version } else { spoken };
    if least <= cap { least } else { cap }
}

/// Decides what to bind where the compositor announces an interface.
pub fn decide_binding(interface: &String, version: u32) -> (bind: Option<(Global, u32)>)
    ensures
        bind == binding(interface@, version),
{
    proof {
        bindings_go_by_name(interface@, version, Global::ToplevelList);
        bindings_go_by_name(interface@, version, Global::Output);
        bindings_go_by_name(interface@, version, Global::Shm);
        bindings_go_by_name(interface@, version, Global::CopyManager);
        bindings_go_by_name(interface@, version, Global::OutputSources);
        bindings_go_by_name(interface@, version, Global::ToplevelSources);
    }
    let list: (&str, u32) = toplevel_list_interface();
    if *interface == list.0.to_owned() {
        return Some((Global::ToplevelList, bind_at(version, list.1, u32::MAX)));
    }
    let output: (&str, u32) = output_interface();
    if *interface == output.0.to_owned() {
        return Some((Global::Output, bind_at(version, output.1, OUTPUT_CAP)));
    }
    let shm: (&str, u32) = shm_interface();
    if *interface == shm.0.to_owned() {
        return Some((Global::Shm, bind_at(version, shm.1, u32::MAX)));
    }
    let copy: (&str, u32) = copy_manager_interface();
    if *interface == copy.0.to_owned() {
        return Some((Global::CopyManager, bind_at(version, copy.1, u32::MAX)));
    }
    let outputs: (&str, u32) = output_sources_interface();
    if *interface == outputs.0.to_owned() {
        return Some((Global::OutputSources, bind_at(version, outputs.1, u32::MAX)));
    }
    let toplevels: (&str, u32) = toplevel_sources_interface();
    if *interface == toplevels.0.to_owned() {
        return Some((Global::ToplevelSources, bind_at(version, toplevels.1, u32::MAX)));
    }
    None
}

/// The six interfaces that are bound, by their names, and the version of
/// each: the one announced, but none later than the first of most, the third
/// of shared memory and the fourth of outputs.
pub proof fn known_interfaces_are_bound(version: u32)
    ensures
        ({
            let first = if version < 1 {
                version
            } else {
                1
            };
            let third = if version < 3 {
                version
            } else {
                3
            };
            let fourth = if version < 4 {
                version
            } else {
                4
            };
            &&& binding("ext_foreign_toplevel_list_v1"@, version) == Some(
                (Global::ToplevelList, first),
            )
            &&& binding("wl_output"@, version) == Some((Global::Output, fourth))
            &&& binding("wl_shm"@, version) == Some((Global::Shm, third))
            &&& binding("ext_image_copy_capture_manager_v1"@, version) == Some(
                (Global::CopyManager, first),
            )
            &&& binding("ext_output_image_capture_source_manager_v1"@, version) == Some(
                (Global::OutputSources, first),
            )
            &&& binding("ext_foreign_toplevel_image_capture_source_manager_v1"@, version) == Some(
                (Global::ToplevelSources, first),
            )
        }),
{
    bindings_go_by_name("ext_foreign_toplevel_list_v1"@, version, Global::ToplevelList);
    bindings_go_by_name("wl_output"@, version, Global::Output);
    bindings_go_by_name("wl_shm"@, version, Global::Shm);
    bindings_go_by_name("ext_image_copy_capture_manager_v1"@, version, Global::CopyManager);
    bindings_go_by_name(
        "ext_output_image_capture_source_manager_v1"@,
        version,
        Global::OutputSources,
    );
    bindings_go_by_name(
        "ext_foreign_toplevel_image_capture_source_manager_v1"@,
        version,
        Global::ToplevelSources,
    );
}

/// No other interface is bound.
pub proof fn other_interfaces_are_left_alone(interface: Seq<char>, version: u32)
    requires
        interface != "ext_foreign_toplevel_list_v1"@,
        interface != "wl_output"@,
        interface != "wl_shm"@,
        interface != "ext_image_copy_capture_manager_v1"@,
        interface != "ext_output_image_capture_source_manager_v1"@,
        interface != "ext_foreign_toplevel_image_capture_source_manager_v1"@,
    ensures
        binding(interface, version) is None,
{
}

} // verus!
