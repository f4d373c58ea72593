use vstd::prelude::*;

verus! {

/// Why building a service binary did not succeed.
pub enum BuildError {
    /// The build ran to its end and exited with a non-zero code.
    Exited { name: String, code: i32 },
    /// The build was stopped by a signal and has no exit code.
    Interrupted { name: String },
}

impl BuildError {
    /// What was being built.
    pub fn name(&self) -> (r: &String)
        ensures
            r == match self {
                BuildError::Exited { name, .. } => name,
                BuildError::Interrupted { name } => name,
            },
    {
        match self {
            BuildError::Exited { name, .. } => name,
            BuildError::Interrupted { name } => name,
        }
    }

    /// The exit code of the build, where it had one.
    pub fn code(&self) -> (r: Option<i32>)
        ensures
            r == match self {
                BuildError::Exited { code, .. } => Some(*code),
                BuildError::Interrupted { .. } => None::<i32>,
            },
    {
        match self {
            BuildError::Exited { code, .. } => Some(*code),
            BuildError::Interrupted { .. } => None,
        }
    }
}

/// Turns the exit status of a build of `name` into its outcome: exit code zero is
/// success, any other code is `Exited`, and no code at all (a signal) is
/// `Interrupted`.
pub fn build_error(name: &str, status: Option<i32>) -> (r: Result<(), BuildError>)
    ensures
        status == Some(0i32) ==> r is Ok,
        forall|c: i32|
            c != 0 && status == Some(c) ==> (r matches Err(BuildError::Exited { name: n, code })
                && n@ == name@ && code == c),
        status is None ==> (r matches Err(BuildError::Interrupted { name: n }) && n@ == name@),
{
    match status {
        Some(0) => Ok(()),
        Some(code) => Err(BuildError::Exited { name: name.to_owned(), code }),
        None => Err(BuildError::Interrupted { name: name.to_owned() }),
    }
}

/// A component of the control plane's test deployment.
#[derive(Clone, Copy, Debug, PartialEq, Eq, Structural)]
pub enum Component {
    Dns,
    Nats,
    Mayastor,
    Node,
    Pool,
    Volume,
    Rest,
    Jaeger,
}

/// A control-plane service, reached over the message bus.
#[derive(Clone, Copy, Debug, PartialEq, Eq, Structural)]
pub enum ControlPlaneService {
    Node,
    Pool,
    Volume,
}

/// Number of boot stages; every component starts in one of them.
pub const BOOT_STAGES: u32 = 5;

/// The boot stage of a component: lower stages start first.
pub open spec fn boot_order_of(c: Component) -> u32 {
    match c {
        Component::Dns => 0,
        Component::Nats => 0,
        Component::Mayastor => 1,
        Component::Node => 2,
        Component::Pool => 3,
        Component::Volume => 3,
        Component::Rest => 4,
        Component::Jaeger => 4,
    }
}

/// The component that runs a control-plane service.
pub open spec fn component_of(s: ControlPlaneService) -> Component {
    match s {
        ControlPlaneService::Node => Component::Node,
        ControlPlaneService::Pool => Component::Pool,
        ControlPlaneService::Volume => Component::Volume,
    }
}

/// Whether a component is one of the control-plane services.
pub open spec fn is_service(c: Component) -> bool {
    c == Component::Node || c == Component::Pool || c == Component::Volume
}

/// The components that every deployment holds besides the chosen services, in
/// the order in which they are declared.
pub open spec fn infrastructure() -> Seq<Component> {
    seq![Component::Dns, Component::Nats, Component::Mayastor, Component::Rest, Component::Jaeger]
}

/// The items of `s` in boot stage `o`, in the order in which they stand in `s`.
pub open spec fn in_stage(s: Seq<Component>, o: u32) -> Seq<Component>
    decreases s.len(),
{
    if s.len() == 0 {
        Seq::empty()
    } else {
        let rest = in_stage(s.drop_last(), o);
        if boot_order_of(s.last()) == o {
            rest.push(s.last())
        } else {
            rest
        }
    }
}

/// The items of `s` in the stages below `n`, stage after stage, each stage in the
/// order of `s`.
pub open spec fn stages_below(s: Seq<Component>, n: nat) -> Seq<Component>
    decreases n,
{
    if n == 0 {
        Seq::empty()
    } else {
        stages_below(s, (n - 1) as nat) + in_stage(s, (n - 1) as u32)
    }
}

/// `s` in boot order: a stable sort of `s` by boot stage.
pub open spec fn boot_sorted(s: Seq<Component>) -> Seq<Component> {
    stages_below(s, BOOT_STAGES as nat)
}

impl Component {
    /// The boot stage of this component: lower stages start first.
    pub fn boot_order(&self) -> (r: u32)
        ensures
            r == boot_order_of(*self),
            r < BOOT_STAGES,
    {
        match self {
            Component::Dns => 0,
            Component::Nats => 0,
            Component::Mayastor => 1,
            Component::Node => 2,
            Component::Pool => 3,
            Component::Volume => 3,
            Component::Rest => 4,
            Component::Jaeger => 4,
        }
    }
}

impl ControlPlaneService {
    /// The component that runs this service.
    pub fn component(&self) -> (r: Component)
        ensures
            r == component_of(*self),
    {
        match self {
            ControlPlaneService::Node => Component::Node,
            ControlPlaneService::Pool => Component::Pool,
            ControlPlaneService::Volume => Component::Volume,
        }
    }

    /// The service of the given name (`Node`, `Pool` or `Volume`, case as written),
    /// or `None` for any other name.
    pub fn from_name(name: &str) -> (r: Option<ControlPlaneService>)
        ensures
            r == Some(ControlPlaneService::Node) <==> name@ == "Node"@,
            r == Some(ControlPlaneService::Pool) <==> name@ == "Pool"@,
            r == Some(ControlPlaneService::Volume) <==> name@ == "Volume"@,
    {
        let s = name.to_owned();
        let node = String::from_str("Node");
        let pool = String::from_str("Pool");
        let volume = String::from_str("Volume");
        proof {
            reveal_strlit("Node");
            reveal_strlit("Pool");
            reveal_strlit("Volume");
            assert("Node"@[0] != "Pool"@[0]);
            assert("Node"@.len() != "Volume"@.len());
            assert("Pool"@.len() != "Volume"@.len());
        }
        if s == node {
            Some(ControlPlaneService::Node)
        } else if s == pool {
            Some(ControlPlaneService::Pool)
        } else if s == volume {
            Some(ControlPlaneService::Volume)
        } else {
            None
        }
    }
}

/// The components of a deployment, in the order in which they are started.
pub struct Components {
    list: Vec<Component>,
}

impl Components {
    pub closed spec fn view(&self) -> Seq<Component> {
        self.list@
    }

    /// The components of a deployment that runs `services`: those services, then
    /// every component that is not a control-plane service, all put in boot order.
    pub fn new(services: &Vec<ControlPlaneService>) -> (r: Components)
        ensures
            r.view() == boot_sorted(services@.map_values(|s: ControlPlaneService| component_of(s))
                + infrastructure()),
    {
        let mut list: Vec<Component> = Vec::new();
        let mut i: usize = 0;
        while i < services.len()
            invariant
                i <= services@.len(),
                list@ == services@.take(i as int).map_values(
                    |s: ControlPlaneService| component_of(s),
                ),
            decreases services@.len() - i,
        {
            list.push(services[i].component());
            assert(services@.take(i + 1) =~= services@.take(i as int).push(services@[i as int]));
            i += 1;
        }
        assert(services@.take(i as int) =~= services@);
        let mut components = Components { list };
        let ghost base = components.list@;
        components.push_except_service(Component::Dns);
        components.push_except_service(Component::Nats);
        components.push_except_service(Component::Mayastor);
        components.push_except_service(Component::Node);
        components.push_except_service(Component::Pool);
        components.push_except_service(Component::Volume);
        components.push_except_service(Component::Rest);
        components.push_except_service(Component::Jaeger);
        assert(components.list@ =~= base + infrastructure());
        components.sort();
        components
    }

    /// Adds `component` at the end, unless it is one of the control-plane services.
    pub fn push_except_service(&mut self, component: Component)
        ensures
            final(self).view() == if is_service(component) {
                old(self).view()
            } else {
                old(self).view().push(component)
            },
    {
        match component {
            Component::Node | Component::Pool | Component::Volume => {},
            _ => self.list.push(component),
        }
    }

    /// Puts the components in boot order, keeping the order of those in one stage.
    pub fn sort(&mut self)
        ensures
            final(self).view() == boot_sorted(old(self).view()),
    {
        let ghost s = self.list@;
        let mut sorted: Vec<Component> = Vec::new();
        let mut o: u32 = 0;
        while o < BOOT_STAGES
            invariant
                self.list@ == s,
                o <= BOOT_STAGES,
                sorted@ == stages_below(s, o as nat),
            decreases BOOT_STAGES - o,
        {
            let ghost done = sorted@;
            let mut i: usize = 0;
            while i < self.list.len()
                invariant
                    self.list@ == s,
                    i <= s.len(),
                    sorted@ == done + in_stage(s.take(i as int), o),
                decreases s.len() - i,
            {
                let c = self.list[i];
                assert(s.take(i + 1).drop_last() =~= s.take(i as int));
                if c.boot_order() == o {
                    sorted.push(c);
                }
                assert(sorted@ =~= done + in_stage(s.take(i + 1), o));
                i += 1;
            }
            assert(s.take(s.len() as int) =~= s);
            o += 1;
        }
        self.list = sorted;
    }

    /// The components, in their current order.
    pub fn list(&self) -> (r: &Vec<Component>)
        ensures
            r@ == self.view(),
    {
        &self.list
    }
}

} // verus!
