use legion::systems::CommandBuffer;
use legion::world::SubWorld;
use legion::{IntoQuery, SystemBuilder};
use shrev::EventChannel;
use traffloat::ecs::{Legion, SetupEcs, UnregisteredChannel};

#[derive(Debug, Clone, Copy, PartialEq)]
struct Input(u32);

#[derive(Debug, Default)]
struct Counter(u32);

#[derive(Debug, Default)]
struct Seen(Vec<usize>);

#[derive(Debug, Default)]
struct Total(u64);

#[derive(Debug, Default)]
struct Other(u64);

#[derive(Debug, Clone, Copy)]
struct Marker;

fn tick(kernel: &mut Legion) {
    kernel.schedule.execute(&mut kernel.world, &mut kernel.resources);
}

fn read_all(channel: &EventChannel<Input>, reader: &mut shrev::ReaderId<Input>) -> Vec<Input> {
    channel.read(reader).cloned().collect()
}

#[test]
fn counter_end_to_end() {
    let mut setup = SetupEcs::new(true).publish::<Input>().resource(Counter(0));
    let mut reader = setup.subscribe::<Input>();
    let counting = SystemBuilder::new("counting")
        .read_resource::<EventChannel<Input>>()
        .write_resource::<Counter>()
        .build(move |_, _, (channel, counter), _| {
            for _ in channel.read(&mut reader) {
                counter.0 += 1;
            }
        });
    let mut kernel = setup.system(counting).build();
    for i in 0..3 {
        assert_eq!(kernel.publish(Input(i)), Ok(()));
    }
    tick(&mut kernel);
    assert_eq!(kernel.resources.get::<Counter>().unwrap().0, 3);
    tick(&mut kernel);
    assert_eq!(kernel.resources.get::<Counter>().unwrap().0, 3);
}

#[test]
fn structural_changes_visible_next_tick() {
    let spawning = SystemBuilder::new("spawning")
        .write_resource::<Seen>()
        .read_resource::<Counter>()
        .with_query(<&Marker>::query())
        .build(|cmd: &mut CommandBuffer, world: &mut SubWorld, (seen, _), query| {
            let count = query.iter(world).count();
            seen.0.push(count);
            cmd.push((Marker,));
        });
    let mut kernel = SetupEcs::new(false)
        .resource_default::<Seen>()
        .resource_default::<Counter>()
        .system(spawning)
        .build();
    tick(&mut kernel);
    assert_eq!(kernel.resources.get::<Seen>().unwrap().0, vec![0]);
    tick(&mut kernel);
    tick(&mut kernel);
    assert_eq!(kernel.resources.get::<Seen>().unwrap().0, vec![0, 1, 2]);
    assert_eq!(<&Marker>::query().iter(&kernel.world).count(), 3);
}

#[test]
fn late_reader_sees_only_later_events() {
    let mut setup = SetupEcs::new(false).publish::<Input>();
    let mut early = setup.subscribe::<Input>();
    let mut kernel = setup.build();
    for i in 0..4 {
        kernel.publish(Input(i)).unwrap();
    }
    let mut late = kernel
        .resources
        .get_mut::<EventChannel<Input>>()
        .unwrap()
        .register_reader();
    kernel.publish(Input(10)).unwrap();
    kernel.publish(Input(11)).unwrap();
    let channel = kernel.resources.get::<EventChannel<Input>>().unwrap();
    assert_eq!(read_all(&channel, &mut late), vec![Input(10), Input(11)]);
    assert_eq!(read_all(&channel, &mut late), vec![]);
    assert_eq!(
        read_all(&channel, &mut early),
        vec![Input(0), Input(1), Input(2), Input(3), Input(10), Input(11)]
    );
    assert_eq!(read_all(&channel, &mut early), vec![]);
}

#[test]
fn publish_without_channel_fails() {
    let mut kernel = SetupEcs::new(false).build();
    assert_eq!(kernel.publish(Input(1)), Err(UnregisteredChannel));
}

#[test]
fn declaring_a_channel_twice_keeps_it() {
    let mut setup = SetupEcs::new(false).publish::<Input>();
    let mut reader = setup.subscribe::<Input>();
    let mut setup = setup.publish::<Input>();
    let mut second = setup.subscribe::<Input>();
    let mut kernel = setup.build();
    kernel.publish(Input(5)).unwrap();
    let channel = kernel.resources.get::<EventChannel<Input>>().unwrap();
    assert_eq!(read_all(&channel, &mut reader), vec![Input(5)]);
    assert_eq!(read_all(&channel, &mut second), vec![Input(5)]);
}

#[test]
fn conflicting_writers_serialize() {
    let first = SystemBuilder::new("first")
        .write_resource::<Total>()
        .read_resource::<Counter>()
        .build(|_, _, (total, _), _| {
            for _ in 0..1000 {
                let v = total.0;
                total.0 = v + 1;
            }
        });
    let second = SystemBuilder::new("second")
        .write_resource::<Total>()
        .read_resource::<Counter>()
        .build(|_, _, (total, _), _| {
            for _ in 0..1000 {
                let v = total.0;
                total.0 = v + 1;
            }
        });
    let mut kernel = SetupEcs::new(true)
        .resource(Total(0))
        .resource(Counter(0))
        .system(first)
        .system(second)
        .build();
    tick(&mut kernel);
    tick(&mut kernel);
    assert_eq!(kernel.resources.get::<Total>().unwrap().0, 4000);
}

fn disjoint_kernel(total_first: bool) -> (u64, u64) {
    let a = SystemBuilder::new("a")
        .write_resource::<Total>()
        .read_resource::<Counter>()
        .build(|_, _, (total, _), _| total.0 += 7);
    let b = SystemBuilder::new("b")
        .write_resource::<Other>()
        .read_resource::<Counter>()
        .build(|_, _, (other, _), _| other.0 += 11);
    let setup = SetupEcs::new(false)
        .resource_default::<Total>()
        .resource_default::<Other>()
        .resource_default::<Counter>();
    let setup = if total_first {
        setup.system(a).system(b)
    } else {
        setup.system(b).system(a)
    };
    let mut kernel = setup.build();
    tick(&mut kernel);
    tick(&mut kernel);
    let total = kernel.resources.get::<Total>().unwrap().0;
    let other = kernel.resources.get::<Other>().unwrap().0;
    (total, other)
}

#[test]
fn disjoint_systems_order_independent() {
    assert_eq!(disjoint_kernel(true), (14, 22));
    assert_eq!(disjoint_kernel(false), (14, 22));
}

#[test]
fn uses_applies_bundle() {
    fn bundle(setup: SetupEcs) -> SetupEcs {
        setup.resource(Counter(9))
    }
    let kernel = SetupEcs::new(true).uses(bundle).resource(Counter(1)).build();
    assert_eq!(kernel.resources.get::<Counter>().unwrap().0, 9);
}

#[test]
fn default_setup_is_client_side() {
    let setup = SetupEcs::default();
    assert!(!setup.server);
    assert!(SetupEcs::new(true).server);
}
