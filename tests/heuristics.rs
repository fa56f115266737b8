use tft_synapse::{
    conflict_signal, explain, hp_danger, item_slam_bonus, parse_kv, parse_pair, proximity_to_next_tier,
    rank_order, score_one, slam_bonus, slam_family, split_csv, stage_urgency, synergy_tag_bonus,
    tags_to_prefer_traits, AttributeGroup, CatalogEntry, Config, CountTable, Reason, SlamFamily,
    Weights, DEFAULT_BASE, SCALE,
};

fn table(pairs: &[(&str, i32)]) -> CountTable {
    let mut t = CountTable::new();
    for (k, v) in pairs {
        t.set(k.to_string(), *v);
    }
    t
}

fn strings(xs: &[&str]) -> Vec<String> {
    xs.iter().map(|x| x.to_string()).collect()
}

fn tiers() -> Vec<(i32, i32)> {
    vec![(1, 2), (2, 4), (3, 6)]
}

#[test]
fn danger_examples() {
    assert_eq!(hp_danger(60), 0);
    assert_eq!(hp_danger(0), SCALE);
    assert_eq!(hp_danger(90), 0);
    assert_eq!(hp_danger(30), SCALE / 2);
    assert_eq!(hp_danger(-5), SCALE);
    assert_eq!(hp_danger(59), 16_666);
}

#[test]
fn stage_examples() {
    assert_eq!(stage_urgency("2-1"), 0);
    assert_eq!(stage_urgency("6-4"), SCALE);
    assert_eq!(stage_urgency("4-1"), SCALE / 2);
    assert_eq!(stage_urgency("1-3"), 0);
    assert_eq!(stage_urgency("9-1"), SCALE);
    assert_eq!(stage_urgency("3"), SCALE / 4);
}

#[test]
fn stage_unparseable_defaults_to_round_two() {
    assert_eq!(stage_urgency("x-1"), 0);
    assert_eq!(stage_urgency(""), 0);
    assert_eq!(stage_urgency(" 5-1"), 0);
}

#[test]
fn conflict_is_exact_match() {
    let taken = strings(&["Sunfire Board", "Exiles"]);
    assert_eq!(conflict_signal(&"Exiles".to_string(), &taken), SCALE);
    assert_eq!(conflict_signal(&"exiles".to_string(), &taken), 0);
    assert_eq!(conflict_signal(&"Sunfire".to_string(), &taken), 0);
    assert_eq!(conflict_signal(&"Exiles".to_string(), &Vec::new()), 0);
}

#[test]
fn slam_belt_chain_saturates() {
    let parts = table(&[("Belt", 2), ("Chain", 1)]);
    let weights = table(&[]);
    assert_eq!(item_slam_bonus(&parts, "Sunfire Board", &weights), SCALE);
}

#[test]
fn slam_belt_chain_partial() {
    let parts = table(&[("Belt", 1)]);
    let weights = table(&[]);
    assert_eq!(item_slam_bonus(&parts, "EXILES", &weights), 666_666);
    assert_eq!(item_slam_bonus(&parts, "exiles", &weights), 666_666);
}

#[test]
fn slam_component_family_and_aliases() {
    let parts = table(&[("Belt", 2), ("Rod", 1), ("Bow", 5)]);
    let weights = table(&[("Belt", 3), ("Rod", 2)]);
    assert_eq!(item_slam_bonus(&parts, "Portable Forge", &weights), 400_000);
    assert_eq!(item_slam_bonus(&parts, "Pandora's Items", &weights), 400_000);
    assert_eq!(item_slam_bonus(&parts, "Pandoras Items", &weights), 400_000);
    assert_eq!(item_slam_bonus(&parts, "Pandora\u{2019}s Items", &weights), 400_000);
    assert_eq!(item_slam_bonus(&parts, "Something Else", &weights), 0);
}

#[test]
fn slam_family_from_lowered_name() {
    assert!(matches!(slam_family(&"component grab bag".to_string()), SlamFamily::Components));
    assert!(matches!(slam_family(&"triumphant return".to_string()), SlamFamily::BeltChain));
    assert!(matches!(slam_family(&"Triumphant Return".to_string()), SlamFamily::Other));
    let parts = table(&[("Chain", 1)]);
    assert_eq!(slam_bonus(&parts, &"sunfire board".to_string(), &table(&[])), 600_000);
    assert_eq!(slam_bonus(&parts, &"Sunfire Board".to_string(), &table(&[])), 0);
}

#[test]
fn slam_negative_raw_clamps_to_zero() {
    let parts = table(&[("Belt", -4)]);
    assert_eq!(item_slam_bonus(&parts, "Sunfire Board", &table(&[])), 0);
}

#[test]
fn proximity_examples() {
    let prefer = strings(&["Sorcerer"]);
    assert_eq!(proximity_to_next_tier(&table(&[("Sorcerer", 3)]), &tiers(), &prefer), SCALE);
    assert_eq!(proximity_to_next_tier(&table(&[("Sorcerer", 2)]), &tiers(), &prefer), SCALE / 2);
    assert_eq!(proximity_to_next_tier(&table(&[("Sorcerer", 6)]), &tiers(), &prefer), 0);
    assert_eq!(proximity_to_next_tier(&table(&[("Sorcerer", 9)]), &tiers(), &prefer), 0);
    assert_eq!(proximity_to_next_tier(&table(&[("Bruiser", 3)]), &tiers(), &prefer), 0);
}

#[test]
fn proximity_sums_and_caps() {
    let prefer = strings(&["A", "B"]);
    let far = vec![(1, 10)];
    // 1/4 + 1/5
    assert_eq!(proximity_to_next_tier(&table(&[("A", 6), ("B", 5)]), &far, &prefer), 450_000);
    // 1/1 + 1/2 is capped at 1
    assert_eq!(proximity_to_next_tier(&table(&[("A", 9), ("B", 8)]), &far, &prefer), SCALE);
}

#[test]
fn proximity_ignores_breakpoint_order() {
    let prefer = strings(&["A"]);
    let counts = table(&[("A", 3)]);
    let a = proximity_to_next_tier(&counts, &vec![(1, 2), (2, 5), (3, 7)], &prefer);
    let b = proximity_to_next_tier(&counts, &vec![(3, 7), (2, 5), (1, 2)], &prefer);
    assert_eq!(a, b);
    assert_eq!(a, SCALE / 2);
}

#[test]
fn proximity_rises_towards_next_tier() {
    let prefer = strings(&["A"]);
    let bps = vec![(1, 5)];
    let mut last = 0;
    for c in 0..5 {
        let v = proximity_to_next_tier(&table(&[("A", c)]), &bps, &prefer);
        assert!(v >= last);
        last = v;
    }
    assert_eq!(last, SCALE);
}

#[test]
fn empty_inputs_give_zero() {
    let empty = table(&[]);
    assert_eq!(proximity_to_next_tier(&empty, &tiers(), &strings(&["A"])), 0);
    assert_eq!(proximity_to_next_tier(&table(&[("A", 1)]), &tiers(), &Vec::new()), 0);
    assert_eq!(synergy_tag_bonus(&Vec::new(), &table(&[("A", 1)])), 0);
    assert_eq!(synergy_tag_bonus(&strings(&["A"]), &empty), 0);
    assert_eq!(item_slam_bonus(&empty, "Portable Forge", &table(&[("Belt", 3)])), 0);
    assert_eq!(item_slam_bonus(&empty, "Sunfire Board", &empty), 0);
}

#[test]
fn synergy_counts_held_attributes() {
    let counts = table(&[("A", 1), ("B", 0), ("C", 3)]);
    assert_eq!(synergy_tag_bonus(&strings(&["A", "B", "D"]), &counts), 250_000);
    assert_eq!(synergy_tag_bonus(&strings(&["A", "C"]), &counts), 500_000);
    assert_eq!(synergy_tag_bonus(&strings(&["A", "C", "A", "C", "A"]), &counts), SCALE);
}

#[test]
fn preferred_attributes_from_tags() {
    let groups = vec![
        AttributeGroup { name: "magic".to_string(), attributes: strings(&["Sorcerer", "Invoker"]) },
        AttributeGroup { name: "tank".to_string(), attributes: strings(&["Bruiser"]) },
    ];
    let mut r = tags_to_prefer_traits(&strings(&["tank", "magic"]), &groups);
    r.sort();
    assert_eq!(r, strings(&["Bruiser", "Invoker", "Sorcerer"]));
    assert!(tags_to_prefer_traits(&strings(&["none"]), &groups).is_empty());
    assert!(tags_to_prefer_traits(&Vec::new(), &groups).is_empty());
}

#[test]
fn csv_fields_are_trimmed() {
    assert_eq!(split_csv(" a , b,,c ,"), strings(&["a", "b", "c"]));
    assert!(split_csv("").is_empty());
    assert!(split_csv(" , ").is_empty());
}

#[test]
fn kv_pairs_parse_and_skip_bad_ones() {
    let m = parse_kv("Sorcerer=3, Bruiser=2,bad,x=y,Sorcerer=4,n=-1,m=+2");
    assert_eq!(m.get(&"Sorcerer".to_string()), Some(4));
    assert_eq!(m.get(&"Bruiser".to_string()), Some(2));
    assert_eq!(m.get(&"bad".to_string()), None);
    assert_eq!(m.get(&"x".to_string()), None);
    assert_eq!(m.get(&"n".to_string()), Some(-1));
    assert_eq!(m.get(&"m".to_string()), Some(2));
    assert_eq!(m.entries.len(), 4);
}

#[test]
fn kv_single_pair() {
    assert_eq!(parse_pair("Belt=1"), Some(("Belt".to_string(), 1)));
    assert_eq!(parse_pair("a=b=1"), None);
    assert_eq!(parse_pair("=7"), Some((String::new(), 7)));
    assert_eq!(parse_pair("Belt= 1"), None);
    assert_eq!(parse_pair("Belt=99999999999"), None);
    assert_eq!(parse_pair("Belt"), None);
}

fn weights(conflict: i32) -> Weights {
    Weights { w_trait: 0, w_items: 0, w_stage: 0, w_hp: 0, w_conflict: conflict, w_synergy: 0 }
}

#[test]
fn conflict_candidate_ranks_below_equal_base() {
    let cfg = Config { weights: weights(-500_000), trait_breakpoints: tiers() };
    let empty = table(&[]);
    let taken = strings(&["B"]);
    let mut scores = Vec::new();
    for name in ["A", "B"] {
        let (s, _, _) = score_one(
            &name.to_string(), &Vec::new(), &Vec::new(), &empty, &cfg, "2-1", 60, &empty, &empty, &taken,
        );
        scores.push(s);
    }
    assert_eq!(scores[0], 60 * 1_000_000_000_000_000_000i128);
    assert_eq!(scores[1], 30 * 1_000_000_000_000_000_000i128);
    assert_eq!(rank_order(&scores), vec![0, 1]);
}

#[test]
fn score_combines_all_heuristics() {
    let cat = vec![CatalogEntry { name: "Arcane".to_string(), score: 80_000_000, tags: strings(&["magic"]) }];
    let groups = vec![AttributeGroup { name: "magic".to_string(), attributes: strings(&["Sorcerer"]) }];
    let w = Weights {
        w_trait: 500_000,
        w_items: 300_000,
        w_stage: 200_000,
        w_hp: 100_000,
        w_conflict: -1_000_000,
        w_synergy: 250_000,
    };
    let cfg = Config { weights: w, trait_breakpoints: tiers() };
    let traits = table(&[("Sorcerer", 3)]);
    let (score, mult, d) = score_one(
        &"Arcane".to_string(), &cat, &groups, &table(&[]), &cfg, "4-1", 30, &traits, &table(&[]), &Vec::new(),
    );
    assert_eq!(d.base, 80_000_000);
    assert_eq!(d.f_trait, SCALE);
    assert_eq!(d.f_items, 0);
    assert_eq!(d.f_stage, SCALE / 2);
    assert_eq!(d.f_hp, SCALE / 2);
    assert_eq!(d.f_syn, 250_000);
    assert_eq!(d.f_conf, 0);
    // 1 + 0.5 + 0.1 + 0.05 + 0.0625
    assert_eq!(mult, 1_712_500_000_000);
    assert_eq!(score, 80_000_000i128 * 1_712_500_000_000i128);
    let reasons = explain(&d);
    assert_eq!(
        reasons,
        vec![
            (Reason::TraitProximity, SCALE),
            (Reason::StageUrgency, SCALE / 2),
            (Reason::HpDanger, SCALE / 2),
            (Reason::Synergy, 250_000),
        ]
    );
}

#[test]
fn unknown_option_uses_default_base() {
    let cfg = Config { weights: weights(0), trait_breakpoints: Vec::new() };
    let empty = table(&[]);
    let (score, mult, d) = score_one(
        &"Nowhere".to_string(), &Vec::new(), &Vec::new(), &empty, &cfg, "1-1", 100, &empty, &empty, &Vec::new(),
    );
    assert_eq!(d.base, DEFAULT_BASE);
    assert_eq!(mult, SCALE * SCALE);
    assert_eq!(score, DEFAULT_BASE as i128 * (SCALE * SCALE) as i128);
    assert!(explain(&d).is_empty());
}

#[test]
fn scoring_twice_is_identical() {
    let cfg = Config { weights: weights(-300_000), trait_breakpoints: tiers() };
    let traits = table(&[("A", 1)]);
    let parts = table(&[("Belt", 1)]);
    let taken = strings(&["Exiles"]);
    let run = || {
        score_one(
            &"Exiles".to_string(), &Vec::new(), &Vec::new(), &table(&[]), &cfg, "5-2", 20, &traits, &parts, &taken,
        )
    };
    let (s1, m1, d1) = run();
    let (s2, m2, d2) = run();
    assert_eq!((s1, m1), (s2, m2));
    assert_eq!(explain(&d1), explain(&d2));
    assert_eq!((d1.base, d1.f_trait, d1.f_items, d1.f_stage, d1.f_hp, d1.f_syn, d1.f_conf),
        (d2.base, d2.f_trait, d2.f_items, d2.f_stage, d2.f_hp, d2.f_syn, d2.f_conf));
}

#[test]
fn ranking_is_stable_on_ties() {
    assert_eq!(rank_order(&vec![5, 7, 5, 7]), vec![1, 3, 0, 2]);
    assert_eq!(rank_order(&vec![3, 3, 3]), vec![0, 1, 2]);
    assert_eq!(rank_order(&vec![-1, 2, 0]), vec![1, 2, 0]);
    assert!(rank_order(&Vec::new()).is_empty());
}

#[test]
fn preferred_order_does_not_matter() {
    let counts = table(&[("A", 3), ("B", 1), ("C", 0)]);
    let bps = vec![(1, 4), (2, 8)];
    let one = strings(&["A", "B", "C", "A"]);
    let two = strings(&["C", "A", "A", "B"]);
    assert_eq!(
        proximity_to_next_tier(&counts, &bps, &one),
        proximity_to_next_tier(&counts, &bps, &two)
    );
    assert_eq!(synergy_tag_bonus(&one, &counts), synergy_tag_bonus(&two, &counts));
    assert_eq!(synergy_tag_bonus(&one, &counts), 750_000);
}

#[test]
fn positive_weights_keep_multiplier_at_least_one() {
    let w = Weights { w_trait: 1, w_items: 2, w_stage: 3, w_hp: 4, w_conflict: 0, w_synergy: 5 };
    let cfg = Config { weights: w, trait_breakpoints: tiers() };
    let empty = table(&[]);
    let (_, mult, _) = score_one(
        &"X".to_string(), &Vec::new(), &Vec::new(), &empty, &cfg, "6-1", 0, &empty, &empty, &Vec::new(),
    );
    assert_eq!(mult, SCALE * SCALE + 3 * SCALE + 4 * SCALE);
}
