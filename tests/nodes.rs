use audio_graph::{
    BaseMix, Callback, CallbackInner, Capture, CaptureInner, Graph, GraphNodeParams, Node, Playback,
    PlaybackInner, RingBuffer, copy_out, copy_out_ring,
};

struct PassThrough {
    buffer: Vec<i16>,
}

impl CallbackInner for PassThrough {
    fn process(&mut self, input: &mut RingBuffer, output: &mut RingBuffer) {
        let avail = input.len();
        input.read_into(avail, &mut self.buffer);
        output.write_from(avail, &self.buffer);
    }
}

struct Repeat {
    samples: Vec<i16>,
}

impl CaptureInner for Repeat {
    fn capture(&mut self, output: &mut RingBuffer) {
        output.write_from(48, &self.samples);
    }
}

struct Record {
    buffer: Vec<i16>,
    heard: Vec<i16>,
}

impl PlaybackInner for Record {
    fn playback(&mut self, input: &mut RingBuffer) {
        let avail = input.len();
        let n = input.read_into(avail, &mut self.buffer);
        self.heard.extend_from_slice(&self.buffer[..n]);
    }
}

fn drain(a: &mut RingBuffer) -> Vec<i16> {
    let mut out = Vec::new();
    let n = a.len();
    a.read_into(n, &mut out);
    out
}

#[test]
fn it_mixes_input() {
    let mut a = BaseMix::new();
    let v1 = (48..96).map(|x| x as i16).collect::<Vec<i16>>();
    let v2 = (96..144).map(|x| x as i16).collect::<Vec<i16>>();
    let mut inputs = vec![RingBuffer::new(), RingBuffer::new()];
    inputs[0].write_from(v1.len(), &v1);
    inputs[1].write_from(v2.len(), &v2);
    a.update(&mut inputs, &mut vec![]);
    assert_eq!(a.accum[0], 144);
}

#[test]
fn it_calls_back() {
    let mut a = Callback::new(PassThrough { buffer: Vec::new() });
    let v1 = (48..96).map(|x| x as i16).collect::<Vec<i16>>();
    let mut inputs = vec![RingBuffer::new()];
    inputs[0].write_from(v1.len(), &v1);
    let mut outputs = vec![RingBuffer::new()];
    a.update(&mut inputs, &mut outputs);
    let mut o1 = Vec::<i16>::new();
    let avail = outputs[0].len();
    outputs[0].read_into(avail, &mut o1);
    assert_eq!(o1[0], 48);
}

#[test]
fn it_captures() {
    let v1 = (48..96).map(|x| x as i16).collect::<Vec<i16>>();
    let mut a = Capture::new(Repeat { samples: v1 });
    let mut inputs = vec![];
    let mut outputs = vec![RingBuffer::new()];
    a.update(&mut inputs, &mut outputs);
    let mut o1 = Vec::<i16>::new();
    let avail = outputs[0].len();
    outputs[0].read_into(avail, &mut o1);
    assert_eq!(o1[0], 48);
}

#[test]
fn it_plays_back() {
    let mut a = Playback::new(Record { buffer: Vec::new(), heard: Vec::new() });
    let mut inputs = vec![RingBuffer::new()];
    let v1 = (48..96).map(|x| x as i16).collect::<Vec<i16>>();
    inputs[0].write_from(48, &v1);
    let mut outputs = vec![];
    a.update(&mut inputs, &mut outputs);
    assert_eq!(inputs[0].len(), 0);
}

enum TestNode {
    Source(Capture<Repeat>),
    Mix(BaseMix),
    Sink(Playback<Record>),
}

impl Node for TestNode {
    fn update(&mut self, inputs: &mut Vec<RingBuffer>, outputs: &mut Vec<RingBuffer>) {
        match self {
            TestNode::Source(n) => n.update(inputs, outputs),
            TestNode::Mix(n) => n.update(inputs, outputs),
            TestNode::Sink(n) => n.update(inputs, outputs),
        }
    }
}

#[test]
fn it_connects() {
    let mut g = Graph::new();
    let input = BaseMix::new();
    let output = BaseMix::new();
    let output_id = g.connect(output, GraphNodeParams { ..Default::default() });
    g.connect(input, GraphNodeParams { to: vec![output_id], ..Default::default() });
}

#[test]
fn it_updates() {
    let mut g = Graph::new();
    let input = TestNode::Source(Capture::new(Repeat { samples: (0i16..48i16).collect() }));
    let output = TestNode::Mix(BaseMix::new());
    let output_id = g.connect(output, GraphNodeParams { ..Default::default() });
    g.connect(input, GraphNodeParams { to: vec![output_id], ..Default::default() });
    g.update();
    match g.borrow(output_id) {
        TestNode::Mix(output) => assert_eq!(output.accum.len(), 48),
        _ => panic!("node {} is not the mixer", output_id),
    }
}

#[test]
fn chain_runs_producers_first_within_one_tick() {
    let mut g = Graph::new();
    let sink = g.connect(
        TestNode::Sink(Playback::new(Record { buffer: Vec::new(), heard: Vec::new() })),
        GraphNodeParams { ..Default::default() },
    );
    assert_eq!(sink, 0);
    let mixer = g.connect(TestNode::Mix(BaseMix::new()), GraphNodeParams { to: vec![sink] });
    assert_eq!(mixer, 1);
    let samples: Vec<i16> = (0..48).map(|x| (x * 2) as i16).collect();
    let source = g.connect(
        TestNode::Source(Capture::new(Repeat { samples: samples.clone() })),
        GraphNodeParams { to: vec![mixer] },
    );
    assert_eq!(source, 2);
    g.update();
    match g.borrow(sink) {
        TestNode::Sink(p) => assert_eq!(p.inner().heard, samples),
        _ => panic!("node {} is not the sink", sink),
    }
    g.update();
    match g.borrow(sink) {
        TestNode::Sink(p) => assert_eq!(p.inner().heard.len(), 96),
        _ => panic!("node {} is not the sink", sink),
    }
}

#[test]
fn mix_takes_shortest_active_input() {
    let mut a = BaseMix::new();
    let v1: Vec<i16> = (0..48).map(|i| i as i16).collect();
    let v2: Vec<i16> = (0..96).map(|i| (i + 100) as i16).collect();
    let v3: Vec<i16> = (0..10).map(|i| (i * 7) as i16).collect();
    let mut inputs = vec![RingBuffer::new(), RingBuffer::new(), RingBuffer::new()];
    inputs[0].write_from(v1.len(), &v1);
    inputs[1].write_from(v2.len(), &v2);
    inputs[2].write_from(v3.len(), &v3);
    inputs[2].active = false;
    assert_eq!(a.mix_inputs(&mut inputs), 48);
    for i in 0..48 {
        assert_eq!(a.accum[i], (i + (i + 100)) as i16);
    }
    assert_eq!(inputs[0].len(), 0);
    assert_eq!(inputs[1].len(), 48);
    assert_eq!(inputs[2].len(), 10);
}

#[test]
fn mix_wraps_on_overflow() {
    let mut a = BaseMix::new();
    let mut inputs = vec![RingBuffer::from(vec![30000, -30000]), RingBuffer::from(vec![30000, -30000])];
    assert_eq!(a.mix_inputs(&mut inputs), 2);
    assert_eq!(a.accum[0], -5536);
    assert_eq!(a.accum[1], 5536);
}

#[test]
fn mix_of_no_active_input_is_empty() {
    let mut a = BaseMix::new();
    let mut inputs = vec![RingBuffer::from(vec![1, 2, 3])];
    inputs[0].active = false;
    assert_eq!(a.mix_inputs(&mut inputs), 0);
    assert_eq!(inputs[0].len(), 3);
    let mut ring = RingBuffer::new();
    a.mix_inputs_ring(&mut inputs, &mut ring);
    assert!(!ring.active);
    assert_eq!(ring.len(), 0);
}

#[test]
fn mix_inputs_ring_moves_a_single_active_input() {
    let mut a = BaseMix::new();
    let mut inputs = vec![RingBuffer::from(vec![1, 2, 3]), RingBuffer::from(vec![9])];
    inputs[1].active = false;
    let mut ring = RingBuffer::new();
    a.mix_inputs_ring(&mut inputs, &mut ring);
    assert!(ring.active);
    assert_eq!(drain(&mut ring), vec![1, 2, 3]);
    assert_eq!(inputs[0].len(), 0);
    assert_eq!(inputs[1].len(), 1);
}

#[test]
fn mix_inputs_ring_sums_several_inputs() {
    let mut a = BaseMix::new();
    let mut inputs = vec![RingBuffer::from(vec![1, 2, 3]), RingBuffer::from(vec![10, 20])];
    let mut ring = RingBuffer::new();
    a.mix_inputs_ring(&mut inputs, &mut ring);
    assert_eq!(drain(&mut ring), vec![11, 22]);
    assert_eq!(inputs[0].len(), 1);
}

#[test]
fn copy_out_writes_every_output() {
    let mut outputs = vec![RingBuffer::new(), RingBuffer::new()];
    copy_out(2, &vec![4, 5, 6], &mut outputs);
    assert_eq!(drain(&mut outputs[0]), vec![4, 5]);
    assert_eq!(drain(&mut outputs[1]), vec![4, 5]);
}

#[test]
fn copy_out_ring_fans_out_with_flag() {
    let mut ring = RingBuffer::from(vec![7, 8, 9]);
    ring.active = false;
    let mut outputs = vec![RingBuffer::new(), RingBuffer::new()];
    let mut scratch = Vec::new();
    copy_out_ring(3, &mut scratch, &mut ring, &mut outputs);
    assert_eq!(ring.len(), 0);
    for out in outputs.iter_mut() {
        assert!(!out.active);
        assert_eq!(drain(out), vec![7, 8, 9]);
    }
}

#[test]
fn callback_fans_out_to_several_outputs() {
    let mut a = Callback::new(PassThrough { buffer: Vec::new() });
    let mut inputs = vec![RingBuffer::from(vec![1, 2]), RingBuffer::from(vec![3, 4])];
    let mut outputs = vec![RingBuffer::new(), RingBuffer::new(), RingBuffer::new()];
    a.update(&mut inputs, &mut outputs);
    for out in outputs.iter_mut() {
        assert!(out.active);
        assert_eq!(drain(out), vec![4, 6]);
    }
}

struct Generator;

impl CallbackInner for Generator {
    fn process(&mut self, _input: &mut RingBuffer, output: &mut RingBuffer) {
        output.write_from(2, &vec![1, 2]);
    }
}

#[test]
fn callback_generates_once_per_tick() {
    let mut a = Callback::new(Generator);
    let mut inputs = vec![];
    let mut outputs = vec![RingBuffer::new()];
    a.update(&mut inputs, &mut outputs);
    assert!(outputs[0].active);
    assert_eq!(drain(&mut outputs[0]), vec![1, 2]);
}

#[test]
fn graph_fans_out_to_two_consumers() {
    let mut g = Graph::new();
    let left = g.connect(
        TestNode::Sink(Playback::new(Record { buffer: Vec::new(), heard: Vec::new() })),
        GraphNodeParams::default(),
    );
    let right = g.connect(
        TestNode::Sink(Playback::new(Record { buffer: Vec::new(), heard: Vec::new() })),
        GraphNodeParams::default(),
    );
    let samples: Vec<i16> = (0..48).map(|x| (100 - x) as i16).collect();
    g.connect(
        TestNode::Source(Capture::new(Repeat { samples: samples.clone() })),
        GraphNodeParams { to: vec![left, right] },
    );
    g.update();
    for id in [left, right] {
        match g.borrow(id) {
            TestNode::Sink(p) => assert_eq!(p.inner().heard, samples),
            _ => panic!("node {} is not a sink", id),
        }
    }
}
