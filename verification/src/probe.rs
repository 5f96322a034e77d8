use std::collections::HashMap;

use vstd::prelude::*;

verus! {

broadcast use {vstd::std_specs::hash::group_hash_axioms, vstd::string::group_string_axioms};

/// The session is a Wayland session: `WAYLAND_DISPLAY` is set, or
/// `XDG_SESSION_TYPE` reads `wayland`.
pub fn is_wayland_session(wayland_display_set: bool, session_type: Option<&str>) -> (b: bool)
    ensures
        b == (wayland_display_set || (session_type matches Some(t) && t@ == "wayland"@)),
{
    if wayland_display_set {
        return true;
    }
    match session_type {
        Some(t) => {
            let expected = "wayland".to_owned();
            t.to_owned() == expected
        },
        None => false,
    }
}

/// Tracks which output a probe surface entered and the names the compositor
/// announced for its outputs, until the entered output's name is known.
pub struct OutputProbe {
    /// Registry name of each announced output, with the output's name once announced.
    pub outputs: HashMap<u32, Option<String>>,
    /// Registry name of the output the probe surface entered.
    pub entered_output_id: Option<u32>,
    /// Name of the entered output, once resolved.
    pub output_name: Option<String>,
    /// The entered output's name has been resolved.
    pub done: bool,
}

/// The state of an [`OutputProbe`] as plain values.
pub struct ProbeView {
    pub outputs: Map<u32, Option<String>>,
    pub entered_output_id: Option<u32>,
    pub output_name: Option<String>,
    pub done: bool,
}

impl View for OutputProbe {
    type V = ProbeView;

    open spec fn view(&self) -> ProbeView {
        ProbeView {
            outputs: self.outputs@,
            entered_output_id: self.entered_output_id,
            output_name: self.output_name,
            done: self.done,
        }
    }
}

/// The probe state with nothing announced yet.
pub open spec fn probe_start() -> ProbeView {
    ProbeView {
        outputs: Map::empty(),
        entered_output_id: None,
        output_name: None,
        done: false,
    }
}

/// The entered output is known and its name has been announced.
pub open spec fn entered_name_known(v: ProbeView) -> bool {
    v.entered_output_id matches Some(id) && v.outputs.contains_key(id) && v.outputs[id] is Some
}

/// Resolves the output name once: when not yet done and the entered output's name is
/// known, that name becomes the result; otherwise nothing changes.
pub open spec fn resolve(v: ProbeView) -> ProbeView {
    if !v.done && entered_name_known(v) {
        ProbeView {
            outputs: v.outputs,
            entered_output_id: v.entered_output_id,
            output_name: v.outputs[v.entered_output_id->0],
            done: true,
        }
    } else {
        v
    }
}

/// An output was announced under registry name `id`; any name it had is forgotten.
pub open spec fn with_output(v: ProbeView, id: u32) -> ProbeView {
    ProbeView {
        outputs: v.outputs.insert(id, None),
        entered_output_id: v.entered_output_id,
        output_name: v.output_name,
        done: v.done,
    }
}

/// The output under registry name `id` announced its `name`; names of unknown outputs
/// are ignored. Then the result is resolved.
pub open spec fn with_output_name(v: ProbeView, id: u32, name: String) -> ProbeView {
    resolve(
        if v.outputs.contains_key(id) {
            ProbeView {
                outputs: v.outputs.insert(id, Some(name)),
                entered_output_id: v.entered_output_id,
                output_name: v.output_name,
                done: v.done,
            }
        } else {
            v
        },
    )
}

/// The probe surface entered the output under registry name `id`; unknown outputs are
/// ignored. Then the result is resolved.
pub open spec fn with_entered(v: ProbeView, id: u32) -> ProbeView {
    resolve(
        if v.outputs.contains_key(id) {
            ProbeView {
                outputs: v.outputs,
                entered_output_id: Some(id),
                output_name: v.output_name,
                done: v.done,
            }
        } else {
            v
        },
    )
}

/// What holds of every state the probe reaches: it is done exactly when it has a
/// name; the entered output is an announced one; and while not done, the entered
/// output's name is not yet known.
pub open spec fn probe_inv(v: ProbeView) -> bool {
    &&& v.done <==> v.output_name is Some
    &&& v.entered_output_id matches Some(id) ==> v.outputs.contains_key(id)
    &&& !v.done ==> !entered_name_known(v)
}

impl OutputProbe {
    /// A probe with no outputs, no entered output and no result.
    pub fn new() -> (p: OutputProbe)
        ensures
            p@ == probe_start(),
            probe_inv(p@),
    {
        OutputProbe {
            outputs: HashMap::new(),
            entered_output_id: None,
            output_name: None,
            done: false,
        }
    }

    /// Takes the entered output's name as the result once it is known.
    pub fn try_resolve(&mut self)
        ensures
            final(self)@ == resolve(old(self)@),
    {
        if self.done {
            return;
        }
        if let Some(id) = self.entered_output_id {
            if let Some(data) = self.outputs.get(&id) {
                if let Some(name) = data {
                    self.output_name = Some(name.clone());
                    self.done = true;
                }
            }
        }
    }

    /// Records an output announced under registry name `id`.
    pub fn add_output(&mut self, id: u32)
        requires
            probe_inv(old(self)@),
        ensures
            final(self)@ == with_output(old(self)@, id),
            probe_inv(final(self)@),
    {
        self.outputs.insert(id, None);
    }

    /// Records the name announced by the output under registry name `id`.
    pub fn set_output_name(&mut self, id: u32, name: String)
        requires
            probe_inv(old(self)@),
        ensures
            final(self)@ == with_output_name(old(self)@, id, name),
            probe_inv(final(self)@),
    {
        if self.outputs.contains_key(&id) {
            self.outputs.insert(id, Some(name));
        }
        self.try_resolve();
    }

    /// Records that the probe surface entered the output under registry name `id`.
    pub fn enter_output(&mut self, id: u32)
        requires
            probe_inv(old(self)@),
        ensures
            final(self)@ == with_entered(old(self)@, id),
            probe_inv(final(self)@),
    {
        if self.outputs.contains_key(&id) {
            self.entered_output_id = Some(id);
        }
        self.try_resolve();
    }
}

/// Every event keeps the probe's invariant.
pub proof fn lemma_probe_inv_kept(v: ProbeView, id: u32, name: String)
    requires
        probe_inv(v),
    ensures
        probe_inv(probe_start()),
        probe_inv(with_output(v, id)),
        probe_inv(with_output_name(v, id, name)),
        probe_inv(with_entered(v, id)),
{
}

/// Once resolved, the result stays: no later event changes the name or the done flag.
pub proof fn lemma_resolution_sticky(v: ProbeView, id: u32, name: String)
    requires
        v.done,
    ensures
        with_output(v, id).output_name == v.output_name && with_output(v, id).done,
        with_output_name(v, id, name).output_name == v.output_name && with_output_name(
            v,
            id,
            name,
        ).done,
        with_entered(v, id).output_name == v.output_name && with_entered(v, id).done,
{
}

/// For an announced output whose name is not known yet, the probe resolves to the name
/// it then announces whichever comes first: the surface entering the output, or the
/// output announcing its name.
pub proof fn lemma_event_order_irrelevant(v: ProbeView, id: u32, name: String)
    requires
        probe_inv(v),
        !v.done,
        v.outputs.contains_key(id),
        v.outputs[id] is None,
    ensures
        with_output_name(with_entered(v, id), id, name).output_name == Some(name),
        with_entered(with_output_name(v, id, name), id).output_name == Some(name),
{
}

} // verus!
