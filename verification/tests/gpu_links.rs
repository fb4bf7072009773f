use std::cell::RefCell;
use std::collections::HashMap;

use vector_segment::error::{OperationError, OperationResult};
use vector_segment::gpu::commands::{BindingKind, GpuCommand};
use vector_segment::gpu::filtered_graph_search::{
    GpuFilteredGraphSearchContext, GraphBuffer, GraphCommand,
};
use vector_segment::gpu::links::{GpuLinks, LinksBuffer, LinksCommand};
use vector_segment::gpu::search_commands::{GpuVectorStorage, SearchCommand};
use vector_segment::graph::GraphLayers;
use vector_segment::types::ScoredPointOffset;

/// Performs the commands of a projection.
#[derive(Default)]
struct Device {
    memory: HashMap<u8, Vec<u32>>,
    pending: Vec<(u8, u8, usize, usize, usize)>,
}

fn slot(buffer: LinksBuffer) -> u8 {
    match buffer {
        LinksBuffer::Links => 0,
        LinksBuffer::Offsets => 1,
        LinksBuffer::Params => 2,
        LinksBuffer::Patch => 3,
        LinksBuffer::Download => 4,
    }
}

impl Device {
    fn perform(&mut self, commands: &[LinksCommand]) {
        for command in commands {
            match command {
                GpuCommand::Create { buffer, size, .. } => {
                    self.memory.insert(slot(*buffer), vec![0xdead_beef; *size]);
                }
                GpuCommand::Upload { buffer, at, words } => {
                    self.memory.get_mut(&slot(*buffer)).unwrap()[*at..at + words.len()]
                        .copy_from_slice(words);
                }
                GpuCommand::Copy {
                    source,
                    target,
                    source_at,
                    target_at,
                    size,
                } => self
                    .pending
                    .push((slot(*source), slot(*target), *source_at, *target_at, *size)),
                GpuCommand::Clear { buffer } => {
                    self.pending.push((99, slot(*buffer), 0, 0, 0));
                }
                GpuCommand::Run => {
                    for (source, target, from, to, size) in std::mem::take(&mut self.pending) {
                        if source == 99 {
                            self.memory.get_mut(&target).unwrap().fill(0);
                        } else {
                            let words = self.memory[&source][from..from + size].to_vec();
                            self.memory.get_mut(&target).unwrap()[to..to + size]
                                .copy_from_slice(&words);
                        }
                    }
                }
                GpuCommand::Describe { .. } => {}
            }
        }
    }

    fn words(&self, buffer: LinksBuffer) -> &Vec<u32> {
        &self.memory[&slot(buffer)]
    }
}

fn graph(points: usize) -> GraphLayers {
    let layers = (0..points)
        .map(|point| {
            let lowest: Vec<u32> = (0..(point * 7) % 5)
                .map(|link| ((point * 31 + link * 17) % points) as u32)
                .collect();
            if point % 4 == 0 {
                vec![lowest, vec![((point + 4) % points / 4 * 4) as u32]]
            } else {
                vec![lowest]
            }
        })
        .collect();
    GraphLayers {
        m: 8,
        m0: 16,
        layers,
    }
}

fn text<T>(result: OperationResult<T>) -> String {
    match result {
        Err(OperationError::ServiceError { description }) => description,
        _ => panic!("an error was expected"),
    }
}

#[test]
fn uploaded_links_come_back() {
    for level in 0..2 {
        let source = graph(100);
        let (mut links, mut commands) = GpuLinks::new(source.get_m(level), 6, 100);
        links
            .upload_graph_layer(level, &source, 100, &mut commands, &|| false)
            .unwrap();
        let device = RefCell::new(Device::default());
        device.borrow_mut().perform(&commands);
        assert_eq!(
            device.borrow().words(LinksBuffer::Params),
            &vec![source.get_m(level) as u32, 6]
        );
        let mut target = graph(100);
        for point in &mut target.layers {
            for list in point.iter_mut() {
                list.clear();
            }
        }
        let stats = links
            .download_links(
                level,
                &mut target,
                &|commands, count| {
                    device.borrow_mut().perform(&commands);
                    Ok(device.borrow().words(LinksBuffer::Download)[..count].to_vec())
                },
                &|| false,
            )
            .unwrap();
        assert_eq!(stats.bad_links, 0);
        assert_eq!(stats.zeroes, 0);
        for point in 0..100 {
            assert_eq!(
                target.copy_links(point, level),
                source.copy_links(point, level)
            );
        }
    }
}

#[test]
fn links_to_points_below_the_level_are_dropped() {
    let (links, commands) = GpuLinks::new(8, 3, 4);
    let device = RefCell::new(Device::default());
    device.borrow_mut().perform(&commands);
    device.borrow_mut().memory.insert(
        0,
        vec![2, 1, 3, 9, 0, 9, 9, 9, 3, 0, 1, 2, 1, 2, 9, 9],
    );
    // Points 1 and 3 have the upper level.
    let mut target = GraphLayers {
        m: 8,
        m0: 16,
        layers: vec![
            vec![vec![]],
            vec![vec![], vec![]],
            vec![vec![]],
            vec![vec![], vec![]],
        ],
    };
    let stats = links
        .download_links(
            1,
            &mut target,
            &|commands, count| {
                device.borrow_mut().perform(&commands);
                Ok(device.borrow().words(LinksBuffer::Download)[..count].to_vec())
            },
            &|| false,
        )
        .unwrap();
    assert_eq!(target.layers[1][1], Vec::<u32>::new());
    assert_eq!(target.layers[3][1], Vec::<u32>::new());
    assert_eq!(stats.bad_links, 1);
    assert_eq!(stats.zeroes, 0);
    let stopped = links.download_links(
        1,
        &mut target,
        &|_, count| Ok(vec![0; count]),
        &|| true,
    );
    assert!(matches!(stopped, Err(OperationError::Cancelled)));
}

#[test]
fn failed_downloads_keep_what_was_read() {
    // Rows of this width fill the transfer buffer two at a time.
    let capacity = (1 << 22) - 1;
    let stride = capacity + 1;
    let (links, _) = GpuLinks::new(8, capacity, 5);
    let unread = || GraphLayers {
        m: 8,
        m0: 16,
        layers: vec![vec![vec![4]]; 5],
    };
    // The call at `failing` fails. The others give every point a link to the first one.
    let run = |failing: usize, target: &mut GraphLayers| {
        let calls = RefCell::new(Vec::new());
        let result = links.download_links(
            0,
            target,
            &|commands: Vec<LinksCommand>, count| {
                let call = calls.borrow().len();
                if call == 0 {
                    assert!(matches!(
                        commands[..],
                        [GpuCommand::Create {
                            buffer: LinksBuffer::Download,
                            label: "Download links staging buffer",
                            size,
                            ..
                        }] if size == 2 * stride
                    ));
                }
                calls.borrow_mut().push((commands.len(), count));
                if call == failing {
                    return Err(OperationError::service_error("lost"));
                }
                let mut words = vec![0; count];
                for row in words.chunks_mut(stride) {
                    row[0] = 1;
                }
                Ok(words)
            },
            &|| false,
        );
        (calls.into_inner(), result)
    };
    let chunk = (3, 2 * stride);
    let rest = (2, stride);

    let mut target = unread();
    let (calls, result) = run(0, &mut target);
    assert_eq!(text(result), "lost");
    assert_eq!(calls, vec![(1, 0)]);
    assert_eq!(target.layers, unread().layers);

    let mut target = unread();
    let (calls, result) = run(2, &mut target);
    assert_eq!(text(result), "lost");
    assert_eq!(calls, vec![(1, 0), chunk, chunk]);
    let lists: Vec<u32> = (0..5).map(|point| target.copy_links(point, 0)[0]).collect();
    assert_eq!(lists, vec![0, 0, 4, 4, 4]);

    let mut target = unread();
    let (calls, result) = run(9, &mut target);
    let stats = result.unwrap();
    assert_eq!(calls, vec![(1, 0), chunk, chunk, rest]);
    assert_eq!((stats.bad_links, stats.zeroes), (0, 0));
    assert_eq!(target.layers, vec![vec![vec![0]]; 5]);
}

#[test]
fn points_with_too_many_links_are_refused() {
    let source = graph(20);
    let (mut links, mut commands) = GpuLinks::new(16, 2, 20);
    let refused = links.upload_graph_layer(0, &source, 20, &mut commands, &|| false);
    assert_eq!(
        text(refused),
        "GPU graph link capacity exceeded at point 2: 4 > 2"
    );
    let (mut links, mut commands) = GpuLinks::new(16, 6, 20);
    links.release_patch_buffer().unwrap();
    assert_eq!(
        text(links.upload_graph_layer(0, &source, 20, &mut commands, &|| false)),
        "GPU links patch buffer has already been released"
    );
}

#[test]
fn compact_links_are_found_by_their_offsets() {
    let source = graph(50);
    let (links, commands, stats) = GpuLinks::new_compact(&source, 50, &|| false).unwrap();
    let mut device = Device::default();
    device.perform(&commands);
    let offsets = device.words(LinksBuffer::Offsets);
    let all = device.words(LinksBuffer::Links);
    assert_eq!(offsets.len(), 51);
    for point in 0..50 {
        assert_eq!(
            all[offsets[point] as usize..offsets[point + 1] as usize].to_vec(),
            source.copy_links(point, 0)
        );
    }
    assert_eq!(stats.points, 50);
    assert_eq!(stats.links, all.len());
    assert_eq!(stats.max_degree, 4);
    assert_eq!(stats.links_bytes, all.len() * 4);
    assert_eq!(stats.offsets_bytes, 51 * 4);
    assert_eq!(stats.dense_bytes, 50 * 5 * 4);
    assert_eq!(device.words(LinksBuffer::Params), &vec![16, 0]);
    assert_eq!(
        links.shader_defines(),
        vec![("LINKS_COMPACT".to_owned(), None)]
    );
    assert_eq!(
        links.descriptor_set_layout(),
        vec![
            (0, BindingKind::Uniform),
            (1, BindingKind::Storage),
            (2, BindingKind::Storage)
        ]
    );
    let (fixed, _) = GpuLinks::new(8, 12, 4);
    assert_eq!(
        fixed.shader_defines(),
        vec![("LINKS_CAPACITY".to_owned(), Some("12".to_owned()))]
    );
    assert_eq!(fixed.descriptor_set().len(), 2);

    let lonely = GraphLayers {
        m: 8,
        m0: 16,
        layers: vec![vec![vec![]], vec![vec![]]],
    };
    assert_eq!(
        text(GpuLinks::new_compact(&lonely, 2, &|| false)),
        "GPU filtered graph has no level-0 links"
    );
    assert!(matches!(
        GpuLinks::new_compact(&source, 50, &|| true),
        Err(OperationError::Cancelled)
    ));
}

#[test]
fn max_links_are_counted_per_level() {
    let source = graph(20);
    assert_eq!(GpuLinks::max_links_on_level(&source, 20, 0), 4);
    assert_eq!(GpuLinks::max_links_on_level(&source, 20, 1), 1);
    assert_eq!(GpuLinks::max_links_on_level(&source, 20, 2), 0);
}

const COUNT: usize = 1_024;
const DIM: usize = 64;
const EF: usize = 32;
const TOP: usize = 10;

/// Greedy search that keeps the best points it has seen.
fn search_on_level(
    links_of: &dyn Fn(u32) -> Vec<u32>,
    visible: &dyn Fn(u32) -> bool,
    score: &dyn Fn(u32) -> f32,
    entry: u32,
) -> Vec<(u32, f32)> {
    let mut seen = vec![false; COUNT];
    seen[entry as usize] = true;
    let mut open = vec![(entry, score(entry))];
    let mut best = open.clone();
    while let Some(next) = open.pop() {
        if best.len() == EF && next.1 < best[EF - 1].1 {
            break;
        }
        for link in links_of(next.0) {
            if seen[link as usize] || !visible(link) {
                continue;
            }
            seen[link as usize] = true;
            let scored = (link, score(link));
            open.push(scored);
            best.push(scored);
            open.sort_by(|a, b| a.1.total_cmp(&b.1));
            best.sort_by(|a, b| b.1.total_cmp(&a.1));
            best.truncate(EF);
        }
    }
    best.truncate(TOP);
    best
}

fn order_key(score: f32) -> i32 {
    let bits = score.to_bits();
    if bits >> 31 == 0 {
        bits as i32
    } else {
        -((bits & 0x7fff_ffff) as i32)
    }
}

#[test]
fn filtered_graph_gpu_matches_cpu_level_zero_with_visibility() {
    let vectors: Vec<Vec<f32>> = (0..COUNT)
        .map(|row| {
            let raw: Vec<f32> = (0..DIM)
                .map(|column| ((row * 17 + column * 13 + row * column * 7) % 6_551) as f32 / 6_551.0)
                .collect();
            let length = raw.iter().map(|x| x * x).sum::<f32>().sqrt();
            raw.iter().map(|x| x / length).collect()
        })
        .collect();
    let graph = GraphLayers {
        m: 8,
        m0: 8,
        layers: (0..COUNT)
            .map(|point| {
                vec![(0..8)
                    .map(|link| ((point + 1 + link * link * 37) % COUNT) as u32)
                    .collect()]
            })
            .collect(),
    };
    let query: Vec<f32> = vectors[511].clone();
    let included: Vec<u32> = (0..COUNT as u32)
        .filter(|point_id| point_id % 3 != 1)
        .collect();
    let mut deleted = vec![false; COUNT];
    for point_id in (6..COUNT).step_by(29) {
        deleted[point_id] = true;
    }
    let mut effective_deleted = vec![true; COUNT];
    for &point_id in &included {
        effective_deleted[point_id as usize] = deleted[point_id as usize];
    }

    let score = |query: &[f32], point: u32| {
        vectors[point as usize]
            .iter()
            .zip(query)
            .map(|(a, b)| a * b)
            .sum::<f32>()
    };
    let expected = search_on_level(
        &|point| graph.copy_links(point as usize, 0),
        &|point| !effective_deleted[point as usize],
        &|point| score(&query, point),
        0,
    );

    let storage = GpuVectorStorage {
        dim: DIM,
        vector_capacity: DIM,
        num_vectors: COUNT,
    };
    let (context, uploads, buffers) =
        GpuFilteredGraphSearchContext::new(storage, &graph, COUNT, EF, &|| false).unwrap();
    assert_eq!(buffers.len(), 10);
    assert_eq!(
        context.shader_defines(),
        vec![
            ("EF".to_owned(), Some("32".to_owned())),
            ("BHEAP_LINEAR".to_owned(), None)
        ]
    );
    let mut device = Device::default();
    device.perform(&uploads);
    let resident_links = device.words(LinksBuffer::Links).clone();

    let run = |commands: Vec<GraphCommand>, top: usize| {
        let mut words: HashMap<u8, Vec<u32>> = HashMap::new();
        for command in &commands {
            if let SearchCommand::Upload { buffer, words: list } = command {
                let place = match buffer {
                    GraphBuffer::QueryStaging => 0,
                    GraphBuffer::PredicateStaging => 1,
                    GraphBuffer::DeletedStaging => 2,
                    GraphBuffer::RequestStaging => 3,
                    other => panic!("unexpected buffer {other:?}"),
                };
                words.insert(place, list.clone());
            }
        }
        let bit = |place: u8, point: u32| words[&place][point as usize / 32] >> (point % 32) & 1;
        let query: Vec<f32> = words[&0].iter().map(|x| f32::from_bits(*x)).collect();
        let request = &words[&3];
        assert_eq!(request[1] as usize, top);
        assert_eq!(request[2] as usize, COUNT);
        let stride = 9;
        let found = search_on_level(
            &|point| {
                let at = point as usize * stride;
                let count = resident_links[at] as usize;
                resident_links[at + 1..at + 1 + count].to_vec()
            },
            &|point| bit(1, point) == 1 && bit(2, point) == 0,
            &|point| score(&query, point),
            request[0],
        );
        let mut points: Vec<ScoredPointOffset> = found
            .into_iter()
            .map(|(idx, score)| ScoredPointOffset {
                idx,
                score: order_key(score),
            })
            .collect();
        points.resize(
            top,
            ScoredPointOffset {
                idx: u32::MAX,
                score: 0,
            },
        );
        Ok(points)
    };
    let bits: Vec<u32> = query.iter().map(|x| x.to_bits()).collect();
    for _ in 0..2 {
        let actual = context
            .search(&bits, 0, &included, Some(&deleted), TOP, &run)
            .unwrap();
        assert_eq!(actual.len(), expected.len());
        for (actual, expected) in actual.iter().zip(&expected) {
            assert_eq!(actual.idx, expected.0);
            assert_eq!(actual.score, order_key(expected.1));
        }
    }

    let refused = |query: &[u32], entry: u32, included: &[u32], top: usize| {
        text(context.search(query, entry, included, Some(&deleted), top, &run))
    };
    for (query, top) in [(&[0u32; 65][..], 1), (&bits[..], 0), (&bits[..], 33)] {
        assert_eq!(
            refused(query, 0, &included, top),
            "GPU filtered graph query shape is unsupported"
        );
    }
    assert_eq!(
        refused(&bits, 1024, &included, 1),
        "GPU filtered graph entry is out of range"
    );
    assert_eq!(
        refused(&bits, 0, &[0, 1024], 1),
        "GPU filtered graph predicate contains an out-of-range point"
    );
    for entry in [1, 6] {
        assert_eq!(
            refused(&bits, entry, &included, 1),
            "GPU filtered graph entry is not visible in the predicate"
        );
    }
    assert_eq!(
        text(GpuFilteredGraphSearchContext::new(
            storage, &graph, COUNT, 0, &|| false
        )),
        "GPU filtered graph capacities are inconsistent"
    );
}
