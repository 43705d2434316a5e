use hockeyscraper::report::{
    empty_net_cell_is_cuttable, goalie_pulled, penalty_summary, power_play_lines,
    process_pp_summary, read_period_shots, read_power_play, PowerPlay, TeamValue,
};

#[test]
fn read_power_play_line() {
    assert_eq!(read_power_play("1-3/04:00"), Some(PowerPlay { goals: 1, total: 3 }));
    assert_eq!(read_power_play("0-2-9/02:00"), Some(PowerPlay { goals: 0, total: 2 }));
    assert_eq!(read_power_play("1-3"), None);
    assert_eq!(read_power_play("13/04:00"), None);
    assert_eq!(read_power_play("a-3/04:00"), None);
}

#[test]
fn power_plays_of_both_teams() {
    let lines = vec![String::from("1-3/06:00"), String::from("2-5/08:10")];
    let (away, home) = process_pp_summary(&lines);
    assert_eq!(away, TeamValue::Away(PowerPlay { goals: 1, total: 3 }));
    assert_eq!(home, TeamValue::Home(PowerPlay { goals: 2, total: 5 }));
}

#[test]
fn penalty_summary_takes_items_after_second_totals_line() {
    let text = String::from(
        "header\nTOT 1\nold\nTOT 2\nPower Plays (Goals-Opp./PPTime)\n1-3/06:00\n\u{a0}\nx\nPower Plays (Goals-Opp./PPTime)\n2-5/08:10\n",
    );
    let summary = penalty_summary(&vec![text.clone()]);
    assert_eq!(summary, reference_items(&[text.as_str()]));
    assert_eq!(
        summary,
        vec![
            "TOT (PN-PIM)",
            "old",
            "TOT 2",
            "Power Plays (Goals-Opp./PPTime)",
            "1-3/06:00",
            "Power Plays (Goals-Opp./PPTime)",
            "2-5/08:10",
        ]
    );
    let pp = power_play_lines(&summary);
    assert_eq!(pp, vec!["1-3/06:00", "2-5/08:10"]);
}

fn reference_items(texts: &[&str]) -> Vec<String> {
    let mut penalty_summary = vec![String::from("TOT (PN-PIM)")];
    for s in texts {
        let mut totals = 0;
        let collected: Vec<&str> = s
            .lines()
            .rev()
            .take_while(|line| {
                if line.contains("TOT") {
                    totals += 1;
                    if totals == 2 {
                        return false;
                    }
                }
                true
            })
            .collect();
        let values: Vec<&str> = collected.into_iter().rev().filter(|str| str.len() >= 2 && *str != "\u{a0}").collect();
        for item in values {
            penalty_summary.push(item.to_owned());
        }
    }
    penalty_summary
}

#[test]
fn penalty_summary_matches_reference_on_samples() {
    let samples = ["", "TOT", "a\nTOT\nb\nTOT\nc\nTOT x\nd\r\n", "\u{a0}\nx\nyz\n\u{e9}\nTOTAL\n", "TOT\nTOT\n"];
    for s in samples.iter() {
        assert_eq!(penalty_summary(&vec![s.to_string()]), reference_items(&[s]));
    }
    assert_eq!(
        penalty_summary(&samples.iter().map(|s| s.to_string()).collect()),
        reference_items(&samples)
    );
}

#[test]
fn penalty_summary_keeps_everything_without_two_totals() {
    let summary = penalty_summary(&vec![String::from("ab\nTOT\ncd\n\u{e9}")]);
    assert_eq!(summary, vec!["TOT (PN-PIM)", "ab", "TOT", "cd", "\u{e9}"]);
    assert_eq!(penalty_summary(&vec![]), vec!["TOT (PN-PIM)"]);
}

#[test]
fn shots_per_period() {
    let text = "a\nb\nc\nd\ne\n\n1\n2\n3\n4\n1-10\n2\n3\n4\n5\n0-12\n6\n7\n8\n9\n \n10\n11\n12\n13\n3-30\n";
    assert_eq!(read_period_shots(text), Some(vec![10, 12, 0]));
    assert_eq!(read_period_shots("a\nb\nc\nd\ne\nf"), None);
    assert_eq!(read_period_shots("a\nb\nc"), Some(vec![]));
    assert_eq!(read_period_shots("a\nb\nc\nd\ne\n1\n2\n3\n4\n10\n1\n2\n3\n4\n5\n"), None);
}

#[test]
fn goalie_pulled_time() {
    assert!(empty_net_cell_is_cuttable(" 01:30 "));
    assert_eq!(goalie_pulled(" 01:30 "), Some(true));
    assert_eq!(goalie_pulled("00:20"), Some(true));
    assert_eq!(goalie_pulled("00:15"), Some(false));
    assert_eq!(goalie_pulled("0x:15"), None);
    assert!(!empty_net_cell_is_cuttable("01"));
    assert!(!empty_net_cell_is_cuttable("0\u{e9}:10"));
}
