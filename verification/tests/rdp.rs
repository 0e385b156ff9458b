use ferricast::cursor::CursorEntry;
use ferricast::double::Double;
use ferricast::rdp::{get_cursor_index_at_time, get_position_at_time, ramer_douglas_peucker};

fn d(x: f64) -> Double {
    Double::from_bits(x.to_bits())
}

fn f(x: Double) -> f64 {
    f64::from_bits(x.to_bits())
}

fn entry(pts: f64, x: f64, y: f64) -> CursorEntry {
    CursorEntry::from_f64(d(pts), d(x), d(y), None)
}

fn distance(p: CursorEntry, a: CursorEntry, b: CursorEntry) -> Double {
    let (dx, dy, dt) = (
        f(b.x) - f(a.x),
        f(b.y) - f(a.y),
        f(b.pts) - f(a.pts),
    );
    let mag_sq = dx * dx + dy * dy + dt * dt;
    if mag_sq == 0.0 {
        let sum = (f(p.x) - f(a.x)).powi(2)
            + (f(p.y) - f(a.y)).powi(2)
            + (f(p.pts) - f(a.pts)).powi(2);
        return d(sum.sqrt());
    }
    let u = ((f(p.x) - f(a.x)) * dx + (f(p.y) - f(a.y)) * dy + (f(p.pts) - f(a.pts)) * dt) / mag_sq;
    let sum = (f(p.x) - (f(a.x) + u * dx)).powi(2)
        + (f(p.y) - (f(a.y) + u * dy)).powi(2)
        + (f(p.pts) - (f(a.pts) + u * dt)).powi(2);
    d(sum.sqrt())
}

fn catmull_rom(p0: f64, p1: f64, p2: f64, p3: f64, t: f64) -> f64 {
    0.5 * ((2.0 * p1)
        + (-p0 + p2) * t
        + (2.0 * p0 - 5.0 * p1 + 4.0 * p2 - p3) * t * t
        + (-p0 + 3.0 * p1 - 3.0 * p2 + p3) * t * t * t)
}

fn interpolate(
    p0: CursorEntry,
    p1: CursorEntry,
    p2: CursorEntry,
    p3: CursorEntry,
    time: Double,
) -> (Double, Double) {
    let u = (f(time) - f(p1.pts)) / (f(p2.pts) - f(p1.pts));
    (
        d(catmull_rom(f(p0.x), f(p1.x), f(p2.x), f(p3.x), u)),
        d(catmull_rom(f(p0.y), f(p1.y), f(p2.y), f(p3.y), u)),
    )
}

#[test]
fn a_straight_path_keeps_its_ends() {
    let points: Vec<CursorEntry> = (0..10).map(|i| entry(i as f64, i as f64, 2.0 * i as f64)).collect();
    assert_eq!(ramer_douglas_peucker(&points, 0, 9, d(0.5), &distance), vec![0, 9]);
}

#[test]
fn a_corner_is_kept() {
    let points = vec![
        entry(0.0, 0.0, 0.0),
        entry(1.0, 1.0, 0.0),
        entry(2.0, 2.0, 100.0),
        entry(3.0, 3.0, 0.0),
        entry(4.0, 4.0, 0.0),
    ];
    assert_eq!(ramer_douglas_peucker(&points, 0, 4, d(10.0), &distance), vec![0, 2, 4]);
    assert_eq!(ramer_douglas_peucker(&points, 0, 4, d(1000.0), &distance), vec![0, 4]);
}

#[test]
fn the_sample_before_the_end_is_not_examined() {
    let points = vec![
        entry(0.0, 0.0, 0.0),
        entry(1.0, 0.0, 0.0),
        entry(2.0, 0.0, 500.0),
        entry(3.0, 0.0, 0.0),
    ];
    assert_eq!(ramer_douglas_peucker(&points, 0, 3, d(1.0), &distance), vec![0, 3]);
}

#[test]
fn short_paths_are_kept_whole() {
    let points = vec![entry(0.0, 0.0, 0.0), entry(1.0, 9.0, 9.0)];
    assert_eq!(ramer_douglas_peucker(&points, 0, 1, d(50.0), &distance), vec![0, 1]);
    assert_eq!(ramer_douglas_peucker(&points[..1], 0, 0, d(50.0), &distance), vec![0]);
}

#[test]
fn the_segment_of_a_time_is_found() {
    let points: Vec<CursorEntry> = [0.0, 10.0, 20.0, 30.0].map(|t| entry(t, t, t)).to_vec();
    let used = [0usize, 2, 3];
    assert_eq!(get_cursor_index_at_time(&points, &used, d(0.0)), 0);
    assert_eq!(get_cursor_index_at_time(&points, &used, d(19.9)), 0);
    assert_eq!(get_cursor_index_at_time(&points, &used, d(20.0)), 1);
    assert_eq!(get_cursor_index_at_time(&points, &used, d(29.0)), 1);
    assert_eq!(get_cursor_index_at_time(&points, &used, d(30.0)), 0);
    assert_eq!(get_cursor_index_at_time(&points, &used, d(-1.0)), 0);
    assert_eq!(get_cursor_index_at_time(&points, &used[..1], d(5.0)), 0);
}

#[test]
fn positions_are_interpolated_between_four_samples() {
    let points: Vec<CursorEntry> = [0.0, 10.0, 20.0, 30.0].map(|t| entry(t, t, 3.0 * t)).to_vec();
    let used = [0usize, 1, 2, 3];
    let (x, y) = get_position_at_time(&points, &used, d(15.0), &interpolate);
    assert_eq!((f(x), f(y)), (15.0, 45.0));
    let (x, _) = get_position_at_time(&points, &used, d(10.0), &interpolate);
    assert_eq!(f(x), 10.0);
    let (x, _) = get_position_at_time(&points, &used, d(25.0), &interpolate);
    assert_eq!(f(x), catmull_rom(10.0, 20.0, 30.0, 30.0, 0.5));
    let (x, _) = get_position_at_time(&points, &used, d(5.0), &interpolate);
    assert_eq!(f(x), catmull_rom(0.0, 0.0, 10.0, 20.0, 0.5));
}

#[test]
fn simplification_keeps_order_and_stays_within_epsilon() {
    let points: Vec<CursorEntry> = (0..60)
        .map(|i| {
            let t = i as f64;
            entry(t, 200.0 * (t / 7.0).sin(), 100.0 * (t / 3.0).cos())
        })
        .collect();
    let used = ramer_douglas_peucker(&points, 0, 59, d(20.0), &distance);
    assert_eq!(used[0], 0);
    assert_eq!(used[used.len() - 1], 59);
    assert!(used.windows(2).all(|w| w[0] < w[1]));
    for w in used.windows(2) {
        for i in (w[0] + 1)..(w[1].saturating_sub(1)) {
            assert!(f(distance(points[i], points[w[0]], points[w[1]])) <= 20.0);
        }
    }
}

#[test]
fn a_larger_epsilon_keeps_fewer_samples() {
    let points: Vec<CursorEntry> = (0..80)
        .map(|i| {
            let t = i as f64;
            entry(t, 150.0 * (t / 5.0).sin(), 90.0 * (t / 2.0).cos())
        })
        .collect();
    let kept = |epsilon| ramer_douglas_peucker(&points, 0, 79, d(epsilon), &distance);
    let mut last = kept(0.0);
    assert_eq!(last, kept(0.0));
    for epsilon in [1.0, 5.0, 20.0, 60.0, 1000.0] {
        let fewer = kept(epsilon);
        assert!(fewer.iter().all(|i| last.contains(i)));
        assert!(fewer.len() <= last.len());
        last = fewer;
    }
    assert_eq!(last, vec![0, 79]);
}

#[test]
fn unused_samples_do_not_move_the_position() {
    let points: Vec<CursorEntry> = (0..6).map(|i| entry(10.0 * i as f64, i as f64, -1.0)).collect();
    let used = [0usize, 2, 5];
    let mut others = points.clone();
    others[1] = entry(77.0, 500.0, 500.0);
    others[2].cursor_type_hash = Some(9);
    others[4].x = d(-3.0);
    for t in [0.0, 7.0, 20.0, 33.0, 50.0] {
        assert_eq!(
            get_position_at_time(&points, &used, d(t), &interpolate),
            get_position_at_time(&others, &used, d(t), &interpolate)
        );
    }
}
