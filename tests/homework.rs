use gradescope_api::assignment::{Assignment, AssignmentId, AssignmentName, AssignmentSelector};
use gradescope_api::homework::{make_pairs, Groupwork, HasHwNumber, HwNumber, Individual, Pair, SamePair};

fn assignment(id: &str, name: &str) -> Assignment {
    Assignment::new(AssignmentId::new(id.to_string()), AssignmentName::new(name.to_string()))
}

#[test]
fn assignment_selector_prefers_id_then_name() {
    let all = vec![
        assignment("11", "Homework 1"),
        assignment("12", "11"),
        assignment("13", "Homework 1"),
    ];
    let pick = |s: &str| {
        AssignmentSelector::new(s.to_string())
            .select_from(&all)
            .map(|a| a.id().as_str().to_string())
    };
    assert_eq!(pick("11").as_deref(), Some("11"));
    assert_eq!(pick("Homework 1").as_deref(), Some("11"));
    assert_eq!(pick("13").as_deref(), Some("13"));
    assert_eq!(pick("Exam 1"), None);
    assert_eq!(all[1].name().as_str(), "11");
}

#[test]
fn homework_number_keeps_its_text() {
    let n = HwNumber::new("4");
    assert_eq!(n.as_str(), "4");
    assert!(HwNumber::new("1") < HwNumber::new("2"));
}

#[test]
fn pair_parts_and_merge() {
    let id: Pair<u32, &str> = Pair::from_individual(1);
    let gw: Pair<u32, &str> = Pair::from_groupwork("gw");
    assert_eq!(id.len(), 1);
    assert_eq!(id.individual(), Some(&1));
    assert_eq!(id.groupwork(), None);
    let both = id.merge(gw);
    assert_eq!(both.len(), 2);
    assert_eq!(both.individual(), Some(&1));
    assert_eq!(both.groupwork(), Some(&"gw"));
    let r = both.as_ref();
    assert_eq!(r.individual(), Some(&&1));
    assert_eq!(both.and(0, "none"), (1, "gw"));
    let only_gw: Pair<u32, &str> = Pair::from_groupwork("x");
    assert_eq!(only_gw.and(7, "none"), (7, "x"));
}

#[test]
fn pair_map_and_or() {
    let p: Pair<u32, &str> = Pair::from_individual(3).merge(Pair::from_groupwork("ab"));
    let m = p.map(|x| x * 2, |s: &str| s.len());
    assert_eq!(m.and(0, 0), (6, 2));
    let q: Pair<u32, &str> = Pair::from_groupwork("abc");
    assert_eq!(q.or(|x| x as usize, |s: &str| s.len()), 3);
    let r: Pair<u32, &str> = Pair::from_individual(5);
    assert_eq!(r.or(|x| x as usize, |s: &str| s.len()), 5);
    let same: SamePair<u32> = Pair::from_individual(2).merge(Pair::from_groupwork(5));
    assert_eq!(same.map_same(|x| x + 1).and(0, 0), (3, 6));
}

#[test]
fn pair_try_both_takes_the_individual_error_first() {
    let ok: Pair<Result<u8, &str>, Result<u8, &str>> =
        Pair::from_individual(Ok(1)).merge(Pair::from_groupwork(Ok(2)));
    assert_eq!(ok.try_both().unwrap().and(0, 0), (1, 2));
    let both_bad: Pair<Result<u8, &str>, Result<u8, &str>> =
        Pair::from_individual(Err("id")).merge(Pair::from_groupwork(Err("gw")));
    assert_eq!(both_bad.try_both().err(), Some("id"));
    let gw_bad: Pair<Result<u8, &str>, Result<u8, &str>> =
        Pair::from_individual(Ok(1)).merge(Pair::from_groupwork(Err("gw")));
    assert_eq!(gw_bad.try_both().err(), Some("gw"));
}

#[test]
fn pair_of_lists_merges_and_counts() {
    let a: Pair<Vec<u8>, Vec<u8>> = Pair::from_individual(vec![1, 2]);
    let b: Pair<Vec<u8>, Vec<u8>> = Pair::from_individual(vec![3]).merge(Pair::from_groupwork(vec![9]));
    let m = a.vec_merge_both(b);
    assert_eq!(m.lens(), (3, 1));
    assert_eq!(m.individual(), Some(&vec![1, 2, 3]));
    assert_eq!(m.groupwork(), Some(&vec![9]));
}

#[test]
fn homeworks_from_titles() {
    let all = vec![
        assignment("1", "Homework 1"),
        assignment("2", "Groupwork 1"),
        assignment("3", "Exam 1"),
        assignment("4", "Homework 3"),
        assignment("5", "homework 9"),
    ];
    let ids: Vec<&str> = Individual::get_from(&all).iter().map(|h| h.number().as_str()).collect();
    assert_eq!(ids, vec!["1", "3"]);
    let gws: Vec<&str> = Groupwork::get_from(&all).iter().map(|h| h.number().as_str()).collect();
    assert_eq!(gws, vec!["1"]);
    let one = Individual::from_assignment(&all[3]).unwrap();
    assert_eq!(one.assignment().id().as_str(), "4");
    assert!(Groupwork::from_assignment(&all[0]).is_none());
}

#[test]
fn homeworks_pair_up_by_number() {
    let all = vec![
        assignment("1", "Homework 1"),
        assignment("2", "Homework 3"),
        assignment("3", "Homework 4"),
        assignment("4", "Groupwork 1"),
        assignment("5", "Exam 1"),
        assignment("6", "Groupwork 2"),
        assignment("7", "Groupwork 4"),
        assignment("8", "Homework 1"),
    ];
    let pairs = make_pairs(Individual::get_from(&all), Groupwork::get_from(&all));
    let shown: Vec<(String, Option<String>, Option<String>)> = pairs
        .iter()
        .map(|(n, p)| {
            (
                n.as_str().to_string(),
                p.individual().map(|h| h.assignment().id().as_str().to_string()),
                p.groupwork().map(|h| h.assignment().id().as_str().to_string()),
            )
        })
        .collect();
    let s = |x: &str| Some(x.to_string());
    assert_eq!(
        shown,
        vec![
            ("1".to_string(), s("1"), s("4")),
            ("3".to_string(), s("2"), None),
            ("4".to_string(), s("3"), s("7")),
            ("2".to_string(), None, s("6")),
        ]
    );
}

#[test]
fn pair_of_lists_iterates() {
    let p: Pair<Vec<u8>, Vec<char>> = Pair::from_individual(vec![1, 2]).merge(Pair::from_groupwork(vec!['a']));
    let (a, b) = p.into_iter_both();
    assert_eq!((a, b), (vec![1, 2], vec!['a']));
    let p: Pair<Vec<u8>, Vec<char>> = Pair::from_individual(vec![1, 2]).merge(Pair::from_groupwork(vec!['a']));
    let singles = p.into_iter_pairs();
    assert_eq!(singles.len(), 3);
    assert_eq!(singles[1].individual(), Some(&2));
    assert_eq!(singles[2].groupwork(), Some(&'a'));
    assert_eq!(singles[2].individual(), None);
    let only: Pair<Vec<u8>, Vec<char>> = Pair::from_groupwork(vec!['z']);
    assert_eq!(only.into_iter_both(), (vec![], vec!['z']));
}
