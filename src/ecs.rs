//! Setup of the ECS kernel: systems, resources, entities and event channels,
//! compiled into a schedule that runs once per tick.

use vstd::prelude::*;

verus! {

#[verifier::external_type_specification]
#[verifier::external_body]
pub struct ExWorld(legion::World);

#[verifier::external_type_specification]
#[verifier::external_body]
pub struct ExResources(legion::Resources);

#[verifier::external_type_specification]
#[verifier::external_body]
pub struct ExBuilder(legion::systems::Builder);

#[verifier::external_type_specification]
#[verifier::external_body]
pub struct ExSchedule(legion::Schedule);

#[verifier::external_type_specification]
#[verifier::external_body]
#[verifier::reject_recursive_types(E)]
pub struct ExEventChannel<E>(shrev::EventChannel<E>);

#[verifier::external_type_specification]
#[verifier::external_body]
#[verifier::reject_recursive_types(T)]
pub struct ExReaderId<T: 'static>(shrev::ReaderId<T>);

/// The number of systems that a schedule builder has queued.
pub uninterp spec fn queued_systems(builder: legion::systems::Builder) -> nat;

/// The number of systems that a compiled schedule runs on each execution.
pub uninterp spec fn scheduled_systems(schedule: legion::Schedule) -> nat;

/// Relies on `legion::systems::Builder::default`: a builder without systems.
#[verifier::external_body]
fn new_builder() -> (r: legion::systems::Builder)
    ensures
        queued_systems(r) == 0,
{
    legion::systems::Builder::default()
}

/// Relies on `legion::World::default`: a world without entities.
#[verifier::external_body]
fn new_world() -> legion::World {
    legion::World::default()
}

/// Relies on `legion::Resources::default`: a resource table without entries.
#[verifier::external_body]
fn new_resources() -> legion::Resources {
    legion::Resources::default()
}

/// Relies on `legion::systems::Builder::add_system`: queues a system that
/// may run in parallel with others whose access does not conflict.
#[verifier::external_body]
fn add_system<S: legion::systems::ParallelRunnable + 'static>(
    builder: &mut legion::systems::Builder,
    sys: S,
)
    ensures
        queued_systems(*final(builder)) == queued_systems(*old(builder)) + 1,
{
    builder.add_system(sys);
}

/// Relies on `legion::systems::Builder::add_thread_local`: queues a system
/// that runs on the thread that executes the schedule.
#[verifier::external_body]
fn add_thread_local<S: legion::systems::Runnable + 'static>(
    builder: &mut legion::systems::Builder,
    sys: S,
)
    ensures
        queued_systems(*final(builder)) == queued_systems(*old(builder)) + 1,
{
    builder.add_thread_local(sys);
}

/// Relies on `legion::systems::Builder::build`: moves every queued system
/// into the compiled schedule, leaving the builder empty.
#[verifier::external_body]
fn build_schedule(builder: &mut legion::systems::Builder) -> (r: legion::Schedule)
    ensures
        scheduled_systems(r) == queued_systems(*old(builder)),
        queued_systems(*final(builder)) == 0,
{
    builder.build()
}

/// Relies on `legion::Resources::get_or_insert`: stores `value` unless a
/// resource of its type is already present, which is then kept.
#[verifier::external_body]
fn insert_if_absent<T: 'static>(resources: &mut legion::Resources, value: T) {
    resources.get_or_insert(value);
}

/// Relies on `legion::Resources::get_or_default`: stores the default value
/// unless a resource of that type is already present.
#[verifier::external_body]
fn default_if_absent<T: Default + 'static>(resources: &mut legion::Resources) {
    resources.get_or_default::<T>();
}

/// Relies on `shrev::EventChannel::new`: a channel without events or readers.
#[verifier::external_body]
fn new_channel<T: Send + Sync + 'static>() -> shrev::EventChannel<T> {
    shrev::EventChannel::new()
}

/// Relies on `legion::Resources::remove`: takes the resource of type `T`
/// out of the table, `None` when there is none.
#[verifier::external_body]
fn take_resource<T: 'static>(resources: &mut legion::Resources) -> Option<T> {
    resources.remove::<T>()
}

/// Relies on `legion::Resources::insert`: stores `value` as the resource of
/// its type, replacing any present one.
#[verifier::external_body]
fn put_resource<T: 'static>(resources: &mut legion::Resources, value: T) {
    resources.insert(value);
}

/// Relies on `shrev::EventChannel::register_reader`: a reader that sees the
/// events written from now on.
#[verifier::external_body]
fn register_reader<T: Send + Sync + 'static>(channel: &mut shrev::EventChannel<T>) -> shrev::ReaderId<T> {
    channel.register_reader()
}

/// Relies on `shrev::EventChannel::single_write`: appends one event for
/// every registered reader.
#[verifier::external_body]
fn single_write<T: Send + Sync + 'static>(channel: &mut shrev::EventChannel<T>, event: T) {
    channel.single_write(event);
}

/// An event was published for an event type whose channel was never declared.
#[derive(Debug, Clone, Copy, PartialEq, Eq, Structural)]
pub struct UnregisteredChannel;

/// The standard setup parameters.
pub struct SetupEcs {
    /// Whether to enable server-only systems.
    pub server: bool,
    /// The schedule builder.
    pub builder: legion::systems::Builder,
    /// The world storing entities and components.
    pub world: legion::World,
    /// The resource set.
    pub resources: legion::Resources,
}

impl SetupEcs {
    /// An empty setup: no systems, entities or resources.
    pub fn new(server: bool) -> (r: Self)
        ensures
            r.server == server,
            queued_systems(r.builder) == 0,
    {
        SetupEcs {
            server,
            builder: new_builder(),
            world: new_world(),
            resources: new_resources(),
        }
    }

    /// Registers a bundle: applies a setup procedure to this setup.
    pub fn uses<F: FnOnce(Self) -> Self>(self, setup_ecs: F) -> (r: Self)
        requires
            setup_ecs.requires((self,)),
        ensures
            setup_ecs.ensures((self,), r),
    {
        setup_ecs(self)
    }

    /// Adds a system.
    pub fn system<S: legion::systems::ParallelRunnable + 'static>(self, sys: S) -> (r: Self)
        ensures
            r.server == self.server,
            r.world == self.world,
            r.resources == self.resources,
            queued_systems(r.builder) == queued_systems(self.builder) + 1,
    {
        let mut this = self;
        add_system(&mut this.builder, sys);
        this
    }

    /// Adds a thread-local system.
    pub fn system_local<S: legion::systems::Runnable + 'static>(self, sys: S) -> (r: Self)
        ensures
            r.server == self.server,
            r.world == self.world,
            r.resources == self.resources,
            queued_systems(r.builder) == queued_systems(self.builder) + 1,
    {
        let mut this = self;
        add_thread_local(&mut this.builder, sys);
        this
    }

    /// Adds a resource, unless one of its type is already present.
    pub fn resource<T: 'static>(self, res: T) -> (r: Self)
        ensures
            r.server == self.server,
            r.builder == self.builder,
            r.world == self.world,
    {
        let mut this = self;
        insert_if_absent(&mut this.resources, res);
        this
    }

    /// Adds a default resource, unless one of its type is already present.
    pub fn resource_default<T: Default + 'static>(self) -> (r: Self)
        ensures
            r.server == self.server,
            r.builder == self.builder,
            r.world == self.world,
    {
        let mut this = self;
        default_if_absent::<T>(&mut this.resources);
        this
    }

    /// Declares a published event: creates its channel unless it exists.
    pub fn publish<T: Send + Sync + 'static>(self) -> (r: Self)
        ensures
            r.server == self.server,
            r.builder == self.builder,
            r.world == self.world,
    {
        let mut this = self;
        insert_if_absent(&mut this.resources, new_channel::<T>());
        this
    }

    /// Declares a subscribed event: creates its channel unless it exists and
    /// returns a reader that sees the events published from now on.
    pub fn subscribe<T: Send + Sync + 'static>(&mut self) -> (r: shrev::ReaderId<T>)
        ensures
            final(self).server == old(self).server,
            final(self).builder == old(self).builder,
            final(self).world == old(self).world,
    {
        let mut channel = match take_resource::<shrev::EventChannel<T>>(&mut self.resources) {
            Some(channel) => channel,
            None => new_channel::<T>(),
        };
        let reader = register_reader(&mut channel);
        put_resource(&mut self.resources, channel);
        reader
    }

    /// Builds the setup into a runnable kernel whose schedule holds every
    /// system that was added.
    pub fn build(self) -> (r: Legion)
        ensures
            r.world == self.world,
            r.resources == self.resources,
            scheduled_systems(r.schedule) == queued_systems(self.builder),
    {
        let mut this = self;
        let schedule = build_schedule(&mut this.builder);
        Legion { world: this.world, resources: this.resources, schedule }
    }
}

impl Default for SetupEcs {
    fn default() -> (r: Self)
        ensures
            !r.server,
            queued_systems(r.builder) == 0,
    {
        SetupEcs::new(false)
    }
}

/// The values required to run the kernel.
///
/// A tick is `schedule.execute(&mut world, &mut resources)`: legion runs
/// every system once, then applies the structural changes they queued.
pub struct Legion {
    /// The world storing entities and components.
    pub world: legion::World,
    /// The resource set.
    pub resources: legion::Resources,
    /// The scheduler running systems.
    pub schedule: legion::Schedule,
}

impl Legion {
    /// Publishes an event on the channel of its type, or fails with
    /// `UnregisteredChannel` when the resource table holds no channel for
    /// that event type.
    pub fn publish<T: Send + Sync + 'static>(&mut self, event: T) -> (r: Result<
        (),
        UnregisteredChannel,
    >)
        ensures
            final(self).world == old(self).world,
            final(self).schedule == old(self).schedule,
    {
        match take_resource::<shrev::EventChannel<T>>(&mut self.resources) {
            Some(channel) => {
                let mut channel = channel;
                single_write(&mut channel, event);
                put_resource(&mut self.resources, channel);
                Ok(())
            },
            None => Err(UnregisteredChannel),
        }
    }
}

} // verus!
