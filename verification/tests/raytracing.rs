use pathtracer::raytracing::{
    choose_root, depth_check, nearest_hit, ray_color, Bounce, Ending, Path, Radiance, Root,
};

const ON: Bounce = Bounce::Scattered { faint: false };
const FAINT: Bounce = Bounce::Scattered { faint: true };

fn light(attenuations: i32, ending: Ending) -> Radiance {
    Radiance { attenuations, ending }
}

#[test]
fn depth_zero_is_black() {
    for events in [
        vec![],
        vec![Bounce::Miss],
        vec![Bounce::Emitted],
        vec![Bounce::Absorbed],
        vec![ON, Bounce::Emitted],
        vec![FAINT],
    ] {
        let found = ray_color(&events, 0);
        assert_eq!(found, light(0, Ending::Exhausted));
        assert!(found.ending.is_black());
        assert_eq!(depth_check(&events, 0), 0);
    }
}

#[test]
fn light_ends_the_path_at_any_depth() {
    for depth in 1..=50 {
        assert_eq!(ray_color(&vec![Bounce::Emitted], depth), light(0, Ending::Emitted));
        assert_eq!(
            ray_color(&vec![Bounce::Emitted, ON, ON, Bounce::Miss], depth),
            light(0, Ending::Emitted)
        );
        assert_eq!(depth_check(&vec![Bounce::Emitted, ON, ON], depth), 1);
    }
    assert_eq!(ray_color(&vec![Bounce::Emitted], i32::MAX), light(0, Ending::Emitted));
}

#[test]
fn miss_yields_the_environment() {
    assert_eq!(ray_color(&vec![Bounce::Miss], 10), light(0, Ending::Escaped));
    assert_eq!(ray_color(&vec![ON, ON, Bounce::Miss], 10), light(2, Ending::Escaped));
    assert!(!Ending::Escaped.is_black());
}

#[test]
fn absorption_is_black() {
    assert_eq!(ray_color(&vec![Bounce::Absorbed], 10), light(0, Ending::Absorbed));
    assert_eq!(ray_color(&vec![ON, Bounce::Absorbed, Bounce::Emitted], 10), light(1, Ending::Absorbed));
    assert!(Ending::Absorbed.is_black());
}

#[test]
fn faint_colour_ends_the_colour_path() {
    assert_eq!(ray_color(&vec![FAINT, Bounce::Emitted], 10), light(0, Ending::Faded));
    assert_eq!(ray_color(&vec![ON, ON, ON, FAINT, ON], 10), light(3, Ending::Faded));
    assert!(!Ending::Faded.is_black());
}

#[test]
fn scattered_path_runs_out_of_depth() {
    assert_eq!(ray_color(&vec![ON], 1), light(1, Ending::Exhausted));
    assert_eq!(ray_color(&vec![ON, ON, ON, Bounce::Emitted], 3), light(3, Ending::Exhausted));
    assert_eq!(ray_color(&vec![ON, ON, ON, Bounce::Emitted], 4), light(3, Ending::Emitted));
    assert!(Ending::Exhausted.is_black());
}

#[test]
fn path_that_outlives_its_events_escapes() {
    assert_eq!(ray_color(&vec![], 3), light(0, Ending::Escaped));
    assert_eq!(ray_color(&vec![ON, ON], 3), light(2, Ending::Escaped));
    assert_eq!(depth_check(&vec![], 3), 1);
    assert_eq!(depth_check(&vec![ON, ON], 5), 3);
}

#[test]
fn light_behind_a_bounce_is_attenuated_once() {
    assert_eq!(ray_color(&vec![ON, Bounce::Emitted], 2), light(1, Ending::Emitted));
    assert_eq!(ray_color(&vec![ON, Bounce::Emitted], 50), light(1, Ending::Emitted));
}

#[test]
fn probe_counts_the_rays_sent() {
    assert_eq!(depth_check(&vec![Bounce::Miss], 10), 1);
    assert_eq!(depth_check(&vec![Bounce::Absorbed], 10), 1);
    assert_eq!(depth_check(&vec![Bounce::Emitted], 10), 1);
    assert_eq!(depth_check(&vec![ON, Bounce::Miss], 10), 2);
    assert_eq!(depth_check(&vec![ON, ON, ON, Bounce::Emitted], 10), 4);
    assert_eq!(depth_check(&vec![ON, ON, ON, Bounce::Absorbed, ON, ON], 10), 4);
}

#[test]
fn probe_stops_at_the_depth() {
    assert_eq!(depth_check(&vec![ON, ON, ON, ON, ON], 3), 3);
    assert_eq!(depth_check(&vec![ON], 1), 1);
    assert_eq!(depth_check(&vec![ON, ON, ON, Bounce::Emitted], 4), 4);
    assert_eq!(depth_check(&vec![ON, ON, ON, Bounce::Emitted], 3), 3);
}

#[test]
fn probe_follows_a_faint_path() {
    assert_eq!(depth_check(&vec![FAINT, FAINT, Bounce::Miss], 10), 3);
    assert_eq!(depth_check(&vec![ON, FAINT, ON, Bounce::Emitted], 10), 4);
    assert_eq!(ray_color(&vec![ON, FAINT, ON, Bounce::Emitted], 10), light(1, Ending::Faded));
}

fn every_script(len: usize) -> Vec<Vec<Bounce>> {
    let kinds = [Bounce::Miss, Bounce::Absorbed, Bounce::Emitted, ON, FAINT];
    let mut scripts: Vec<Vec<Bounce>> = vec![vec![]];
    for _ in 0..len {
        let mut longer = Vec::new();
        for script in &scripts {
            for kind in kinds {
                let mut next = script.clone();
                next.push(kind);
                longer.push(next);
            }
        }
        scripts = longer;
    }
    scripts
}

#[test]
fn probe_count_and_attenuations_stay_in_bounds() {
    for len in 0..5 {
        for events in every_script(len) {
            for depth in 0..6 {
                let found = ray_color(&events, depth);
                let count = depth_check(&events, depth);
                assert!(0 <= found.attenuations && found.attenuations <= depth);
                assert!(found.attenuations as usize <= events.len());
                assert_eq!(found.ending == Ending::Exhausted, found.attenuations == depth);
                assert!(0 <= count && count <= depth);
                assert!(count as usize <= events.len() + 1);
                assert_eq!(count == 0, depth == 0);
            }
        }
    }
}

#[test]
fn colour_path_sends_no_more_rays_than_the_probe_counted() {
    for len in 0..5 {
        for events in every_script(len) {
            for depth in 0..6 {
                let found = ray_color(&events, depth);
                let sent = if found.ending == Ending::Exhausted {
                    found.attenuations
                } else {
                    found.attenuations + 1
                };
                assert!(sent <= depth_check(&events, depth));
            }
        }
    }
}

fn recursive_colour(events: &[Bounce], depth: i32) -> (i32, Ending) {
    if depth == 0 {
        return (0, Ending::Exhausted);
    }
    match events.first() {
        None | Some(Bounce::Miss) => (0, Ending::Escaped),
        Some(Bounce::Absorbed) => (0, Ending::Absorbed),
        Some(Bounce::Emitted) => (0, Ending::Emitted),
        Some(Bounce::Scattered { faint: true }) => (0, Ending::Faded),
        Some(Bounce::Scattered { faint: false }) => {
            let (n, ending) = recursive_colour(&events[1..], depth - 1);
            (n + 1, ending)
        }
    }
}

fn recursive_count(events: &[Bounce], depth: i32) -> i32 {
    if depth == 0 {
        return 0;
    }
    match events.first() {
        Some(Bounce::Scattered { .. }) => recursive_count(&events[1..], depth - 1) + 1,
        _ => 1,
    }
}

#[test]
fn stepping_agrees_with_recursion() {
    for len in 0..5 {
        for events in every_script(len) {
            for depth in 0..6 {
                let found = ray_color(&events, depth);
                assert_eq!((found.attenuations, found.ending), recursive_colour(&events, depth));
                assert_eq!(depth_check(&events, depth), recursive_count(&events, depth));
            }
        }
    }
}

#[test]
fn path_begins_live_unless_depth_is_zero() {
    let path = Path::trace(4);
    assert!(path.live());
    assert_eq!(path, Path { remaining: 4, bounces: 0, ending: None, cutoff: true });
    let probe = Path::probe(4);
    assert!(probe.live());
    assert!(!probe.cutoff);
    let spent = Path::trace(0);
    assert!(!spent.live());
    assert_eq!(spent.ending, Some(Ending::Exhausted));
    assert_eq!(spent.summary(), light(0, Ending::Exhausted));
    assert!(!Path::probe(0).live());
}

#[test]
fn path_advances_bounce_by_bounce() {
    let mut path = Path::trace(3);
    path.advance(ON);
    assert_eq!(path, Path { remaining: 2, bounces: 1, ending: None, cutoff: true });
    path.advance(ON);
    assert!(path.live());
    path.advance(Bounce::Emitted);
    assert!(!path.live());
    assert_eq!(path.bounces, 3);
    assert_eq!(path.summary(), light(2, Ending::Emitted));
}

#[test]
fn path_ends_when_depth_is_spent() {
    let mut path = Path::trace(2);
    path.advance(ON);
    assert!(path.live());
    path.advance(ON);
    assert!(!path.live());
    assert_eq!(path.ending, Some(Ending::Exhausted));
    assert_eq!(path.summary(), light(2, Ending::Exhausted));
}

#[test]
fn cutoff_applies_to_the_colour_path_only() {
    let mut colour = Path::trace(5);
    colour.advance(FAINT);
    assert_eq!(colour.ending, Some(Ending::Faded));
    assert_eq!(colour.summary(), light(0, Ending::Faded));
    let mut probe = Path::probe(5);
    probe.advance(FAINT);
    assert!(probe.live());
    assert_eq!(probe.bounces, 1);
}

#[test]
fn stepped_path_agrees_with_ray_color() {
    for len in 0..5 {
        for events in every_script(len) {
            for depth in 0..6 {
                let mut colour = Path::trace(depth);
                let mut probe = Path::probe(depth);
                for &event in &events {
                    if colour.live() {
                        colour.advance(event);
                    }
                    if probe.live() {
                        probe.advance(event);
                    }
                }
                if colour.live() {
                    colour.advance(Bounce::Miss);
                }
                if probe.live() {
                    probe.advance(Bounce::Miss);
                }
                assert_eq!(colour.summary(), ray_color(&events, depth));
                assert_eq!(probe.bounces, depth_check(&events, depth));
            }
        }
    }
}

/// Evaluates a path in numbers from what each bounce carries: the
/// attenuation of a bounce that scatters, the colour of one that ends.
fn evaluate(path_events: &[(Bounce, f64)], depth: i32, environment: f64) -> f64 {
    let mut path = Path::trace(depth);
    let mut carried = 1.0;
    let mut step = 0;
    while path.live() {
        let (bounce, value) = path_events.get(step).copied().unwrap_or((Bounce::Miss, 0.0));
        path.advance(bounce);
        step += 1;
        match path.ending {
            None => carried *= value,
            Some(Ending::Exhausted) | Some(Ending::Absorbed) => return 0.0,
            Some(Ending::Escaped) => return carried * environment,
            Some(Ending::Emitted) | Some(Ending::Faded) => return carried * value,
        }
    }
    0.0
}

#[test]
fn emitted_colour_comes_back_exactly() {
    let emitted = 10.0 * 0.8;
    for depth in 1..20 {
        assert_eq!(evaluate(&[(Bounce::Emitted, emitted)], depth, 0.25), emitted);
    }
    assert_eq!(evaluate(&[(Bounce::Emitted, emitted)], 0, 0.25), 0.0);
}

#[test]
fn evaluated_path_multiplies_its_attenuations() {
    let events = [(ON, 0.5), (ON, 0.25), (Bounce::Emitted, 8.0)];
    assert_eq!(evaluate(&events, 10, 0.0), 1.0);
    assert_eq!(evaluate(&events, 3, 0.0), 1.0);
    assert_eq!(evaluate(&events, 2, 0.0), 0.0);
    assert_eq!(evaluate(&[(ON, 0.5), (Bounce::Miss, 0.0)], 5, 0.5), 0.25);
    assert_eq!(evaluate(&[(ON, 0.5), (FAINT, 0.004)], 5, 0.5), 0.002);
}

#[test]
fn single_bounce_at_depth_one_is_black() {
    // A diffuse surface seen at depth one: the scattered ray has no depth left.
    assert_eq!(ray_color(&vec![ON], 1), light(1, Ending::Exhausted));
    assert_eq!(evaluate(&[(ON, 0.5)], 1, 0.0), 0.0);
}

#[test]
fn observed_bounce_follows_the_findings() {
    assert_eq!(Bounce::observe(false, false, false, false), Bounce::Miss);
    assert_eq!(Bounce::observe(false, true, true, true), Bounce::Miss);
    assert_eq!(Bounce::observe(true, false, false, false), Bounce::Absorbed);
    assert_eq!(Bounce::observe(true, false, true, true), Bounce::Absorbed);
    assert_eq!(Bounce::observe(true, true, true, false), Bounce::Emitted);
    assert_eq!(Bounce::observe(true, true, true, true), Bounce::Emitted);
    assert_eq!(Bounce::observe(true, true, false, false), ON);
    assert_eq!(Bounce::observe(true, true, false, true), FAINT);
}

#[test]
fn nothing_hit_means_no_nearest() {
    assert_eq!(nearest_hit(&vec![]), None);
    assert_eq!(nearest_hit(&vec![None, None, None]), None);
}

#[test]
fn nearest_hit_has_the_smallest_key() {
    assert_eq!(nearest_hit(&vec![Some(5)]), Some(0));
    assert_eq!(nearest_hit(&vec![Some(9), Some(4), Some(6)]), Some(1));
    assert_eq!(nearest_hit(&vec![None, Some(9), None, Some(2)]), Some(3));
    assert_eq!(nearest_hit(&vec![Some(0), Some(u64::MAX)]), Some(0));
    assert_eq!(nearest_hit(&vec![Some(u64::MAX), None]), Some(0));
}

#[test]
fn first_of_equally_near_hits_wins() {
    assert_eq!(nearest_hit(&vec![Some(7), None, Some(3), Some(3)]), Some(2));
    assert_eq!(nearest_hit(&vec![Some(3), Some(3), Some(3)]), Some(0));
    assert_eq!(nearest_hit(&vec![Some(0), Some(0)]), Some(0));
}

#[test]
fn nearest_hit_orders_distances_by_their_bits() {
    let distances = [2.5f64, 0.001, 1.0e9, 0.75, f64::INFINITY];
    let keys: Vec<Option<u64>> = distances.iter().map(|t| Some(t.to_bits())).collect();
    assert_eq!(nearest_hit(&keys), Some(1));
}

#[test]
fn near_root_is_preferred() {
    assert_eq!(choose_root(true, true, true), Some(Root::Near));
    assert_eq!(choose_root(true, true, false), Some(Root::Near));
}

#[test]
fn far_root_is_the_fallback() {
    assert_eq!(choose_root(true, false, true), Some(Root::Far));
}

#[test]
fn no_root_in_reach_is_no_hit() {
    assert_eq!(choose_root(true, false, false), None);
    assert_eq!(choose_root(false, false, false), None);
    assert_eq!(choose_root(false, true, true), None);
    assert_eq!(choose_root(false, true, false), None);
    assert_eq!(choose_root(false, false, true), None);
}

#[test]
fn path_read_at_once_agrees_with_stepping() {
    for len in 0..5 {
        for events in every_script(len) {
            let carried = events.iter().take_while(|&&e| e == ON).count() as i32;
            let scattered =
                events.iter().take_while(|e| matches!(e, Bounce::Scattered { .. })).count() as i32;
            for depth in 0..6 {
                let found = ray_color(&events, depth);
                assert_eq!(found.attenuations, depth.min(carried));
                let ending = if depth <= carried {
                    Ending::Exhausted
                } else {
                    match events.get(carried as usize) {
                        None | Some(Bounce::Miss) => Ending::Escaped,
                        Some(Bounce::Absorbed) => Ending::Absorbed,
                        Some(Bounce::Emitted) => Ending::Emitted,
                        Some(Bounce::Scattered { .. }) => Ending::Faded,
                    }
                };
                assert_eq!(found.ending, ending);
                assert_eq!(depth_check(&events, depth), depth.min(scattered + 1));
            }
        }
    }
}
