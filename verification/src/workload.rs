//! The workload as it is submitted and as the control plane reports it.

use vstd::prelude::*;

verus! {

/// Where the control plane says a workload is in its life.
#[derive(Clone, Copy, Debug, PartialEq, Eq, Structural)]
pub enum Phase {
    Pending,
    Running,
    Succeeded,
    Failed,
    Unknown,
}

/// The server's representation of a submitted workload.
///
/// `phase` is `None` when the control plane reported none, which it does not
/// do of a workload that exists.
#[derive(Clone, Debug, PartialEq, Eq)]
pub struct WorkloadHandle {
    pub name: String,
    pub phase: Option<Phase>,
}

/// Mathematical model of a [`WorkloadHandle`].
pub struct WorkloadHandleView {
    pub name: Seq<char>,
    pub phase: Option<Phase>,
}

impl View for WorkloadHandle {
    type V = WorkloadHandleView;

    open spec fn view(&self) -> WorkloadHandleView {
        WorkloadHandleView { name: self.name@, phase: self.phase }
    }
}

impl DeepView for WorkloadHandle {
    type V = WorkloadHandleView;

    open spec fn deep_view(&self) -> WorkloadHandleView {
        self@
    }
}

/// What to run: one container, named after the workload.
#[derive(Clone, Debug, PartialEq, Eq)]
pub struct WorkloadDescriptor {
    name: String,
    namespace: Option<String>,
    image: String,
    command: Vec<String>,
}

/// Mathematical model of a [`WorkloadDescriptor`].
pub struct WorkloadDescriptorView {
    pub name: Seq<char>,
    pub namespace: Option<Seq<char>>,
    pub image: Seq<char>,
    pub command: Seq<Seq<char>>,
}

impl View for WorkloadDescriptor {
    type V = WorkloadDescriptorView;

    closed spec fn view(&self) -> WorkloadDescriptorView {
        WorkloadDescriptorView {
            name: self.name@,
            namespace: match self.namespace {
                Some(ns) => Some(ns@),
                None => None,
            },
            image: self.image@,
            command: self.command.deep_view(),
        }
    }
}

impl WorkloadDescriptor {
    /// Describes a workload in the client's default namespace.
    pub fn new(name: &str, image: &str, command: Vec<String>) -> (descriptor: Self)
        ensures
            descriptor@ == (WorkloadDescriptorView {
                name: name@,
                namespace: None,
                image: image@,
                command: command.deep_view(),
            }),
    {
        WorkloadDescriptor {
            name: name.to_owned(),
            namespace: None,
            image: image.to_owned(),
            command,
        }
    }

    /// The same workload, placed in `namespace`.
    pub fn in_namespace(self, namespace: &str) -> (descriptor: Self)
        ensures
            descriptor@ == (WorkloadDescriptorView { namespace: Some(namespace@), ..self@ }),
    {
        WorkloadDescriptor {
            name: self.name,
            namespace: Some(namespace.to_owned()),
            image: self.image,
            command: self.command,
        }
    }

    pub fn name(&self) -> (name: &String)
        ensures
            name@ == self@.name,
    {
        &self.name
    }

    pub fn namespace(&self) -> (namespace: &Option<String>)
        ensures
            namespace.is_some() == self@.namespace.is_some(),
            namespace matches Some(ns) ==> self@.namespace == Some(ns@),
    {
        &self.namespace
    }

    pub fn image(&self) -> (image: &String)
        ensures
            image@ == self@.image,
    {
        &self.image
    }

    /// The name of the single container, which is the workload's own name.
    pub fn container_name(&self) -> (name: &String)
        ensures
            name@ == self@.name,
    {
        &self.name
    }

    /// The entry command, program first.
    pub fn command(&self) -> (command: &Vec<String>)
        ensures
            command.deep_view() == self@.command,
    {
        &self.command
    }
}

} // verus!
