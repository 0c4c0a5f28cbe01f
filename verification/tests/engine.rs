use gaji::{Command, Direction, Field, Grid, Machine};

fn garden(picture: &str) -> Grid {
    Grid::parse(&picture.replace('#', "\u{1F346}").replace('.', "\u{1F331}")).unwrap()
}

fn picture(grid: &Grid) -> String {
    let drawn = grid.render().replace('\u{1F346}', "#").replace('\u{1F331}', ".").replace('\u{2753}', "?");
    drawn.trim_end_matches('\n').to_string()
}

/// Steps `machine` until the head has left or `budget` steps are taken, and
/// returns the commands that were executed with the bytes that came out.
fn walk(machine: &mut Machine, input: &[u8], budget: usize) -> (Vec<Command>, Vec<u8>) {
    let mut commands = Vec::new();
    let mut bytes = Vec::new();
    let mut next = 0;
    let mut steps = 0;
    while machine.is_running() && steps < budget {
        let (r, c) = machine.head().unwrap();
        if machine.grid().get(r, c) == Some(Field::Planted)
            && !machine.suppress_harvest()
            && !machine.suppress_execute()
        {
            commands.push(machine.grid().command_at(r, c));
        }
        let mut fresh = None;
        if machine.awaits_input() && next < input.len() {
            fresh = Some(input[next]);
            next += 1;
        }
        if let Some(byte) = machine.step(fresh) {
            bytes.push(byte);
        }
        steps += 1;
    }
    (commands, bytes)
}

const EIGHT_IN_EIGHT_OUT: &str = "\
.#.#....##..###.#..#.##...##.##.
.#.##.###.#..#.#..##..###.#.#.##
...#..####..##...###..#.....#.#.";

const WRITES_WHAT_IT_READ: &str = "\
..#..###.#####.##...
###..###.#######.#.#
.####.#..#..###.##.#
##.###..#...#.#.##.#";

const NINE_READS: &str = "\
.#..#..#..#.##..#.##
##.##.##.##.##.##.##";

const ELEVEN_WRITES: &str = "\
#..##..#..##..#.##..##..
..#...#.##...#.#...#....";

const THREE_WRITES: &str = "\
.#.##.
#.#...";

const TURNS: &str = "\
##...
..###
.##..
#..#.
.##.#";

#[test]
fn a_new_machine_stands_top_left_facing_right() {
    let machine = Machine::new(garden("#.\n.#"));
    assert!(machine.is_running());
    assert_eq!(machine.head(), Some((0, 0)));
    assert_eq!(machine.facing(), Direction::Right);
    assert!(!machine.suppress_plant());
    assert!(!machine.suppress_harvest());
    assert!(!machine.suppress_execute());
    assert_eq!(machine.waiting_bits(), 0);
    assert_eq!(picture(machine.grid()), "#.\n.#");
}

#[test]
fn on_an_empty_garden_the_head_has_left_at_once() {
    let mut machine = Machine::new(Grid::parse("").unwrap());
    assert!(!machine.is_running());
    assert_eq!(machine.head(), None);
    let report = machine.run(&[1, 2, 3], 100);
    assert_eq!(report.steps, 0);
    assert_eq!(report.consumed, 0);
    assert_eq!(report.output, Vec::<u8>::new());
    let mut rows_only = Machine::new(Grid::parse("\n\n").unwrap());
    assert!(!rows_only.is_running());
    assert_eq!(rows_only.step(None), None);
    assert!(!rows_only.is_running());
}

#[test]
fn a_single_planted_field_is_harvested_and_the_head_leaves() {
    let grid = garden("#");
    assert_eq!(grid.command_at(0, 0), Command::Output);
    let mut machine = Machine::new(grid);
    assert!(!machine.awaits_input());
    let report = machine.run(&[], 10);
    assert_eq!(report.steps, 1);
    assert_eq!(report.consumed, 0);
    assert_eq!(report.output, Vec::<u8>::new());
    assert!(!machine.is_running());
    assert_eq!(machine.waiting_bits(), 0);
    assert_eq!(machine.grid().get(0, 0), Some(Field::Open));
}

#[test]
fn an_open_field_is_planted_and_an_inert_one_left_alone() {
    let mut machine = Machine::new(Grid::parse("\u{1F331}x\u{1F331}").unwrap());
    assert_eq!(machine.step(None), None);
    assert_eq!(machine.head(), Some((0, 1)));
    assert_eq!(machine.step(None), None);
    assert_eq!(machine.head(), Some((0, 2)));
    assert_eq!(machine.step(None), None);
    assert_eq!(machine.head(), None);
    assert_eq!(picture(machine.grid()), "#?#");
}

#[test]
fn a_step_after_the_head_has_left_changes_nothing() {
    let mut machine = Machine::new(garden("."));
    assert_eq!(machine.step(None), None);
    assert!(!machine.is_running());
    assert_eq!(machine.step(Some(0xff)), None);
    assert!(!machine.is_running());
    assert_eq!(picture(machine.grid()), "#");
    assert_eq!(machine.facing(), Direction::Right);
}

#[test]
fn suppress_plant_spares_the_first_open_field_only() {
    let mut machine = Machine::new(garden("#..\n##."));
    assert_eq!(machine.grid().command_at(0, 0), Command::SuppressPlant);
    machine.step(None);
    assert!(machine.suppress_plant());
    assert_eq!(machine.grid().get(0, 1), Some(Field::Open));
    machine.step(None);
    assert!(!machine.suppress_plant());
    assert_eq!(machine.grid().get(0, 1), Some(Field::Open));
    assert_eq!(machine.grid().get(0, 2), Some(Field::Open));
    machine.step(None);
    assert_eq!(machine.grid().get(0, 2), Some(Field::Planted));
    assert!(!machine.is_running());
    assert_eq!(picture(machine.grid()), "..#\n##.");
}

#[test]
fn suppress_harvest_spares_the_first_planted_field_only() {
    let mut machine = Machine::new(garden("###.\n.#.#"));
    let (commands, bytes) = walk(&mut machine, &[], 1);
    assert_eq!(commands, vec![Command::SuppressHarvest]);
    assert_eq!(bytes, Vec::<u8>::new());
    assert!(machine.suppress_harvest());
    machine.step(None);
    assert!(!machine.suppress_harvest());
    assert_eq!(machine.grid().get(0, 1), Some(Field::Planted));
    assert_eq!(machine.waiting_bits(), 0);
    assert_eq!(machine.grid().command_at(0, 2), Command::Output);
    machine.step(None);
    assert_eq!(machine.grid().get(0, 2), Some(Field::Open));
    assert_eq!(machine.waiting_bits(), 1);
    machine.step(None);
    assert!(!machine.is_running());
    assert_eq!(picture(machine.grid()), ".#.#\n.#.#");
}

#[test]
fn suppress_execute_lets_the_harvest_happen_and_cancels_one_command() {
    let mut machine = Machine::new(garden("###.\n####"));
    let (commands, _) = walk(&mut machine, &[], 1);
    assert_eq!(commands, vec![Command::SuppressExecute]);
    assert!(machine.suppress_execute());
    assert_eq!(machine.grid().command_at(0, 1), Command::TurnRight);
    machine.step(None);
    assert!(!machine.suppress_execute());
    assert_eq!(machine.grid().get(0, 1), Some(Field::Open));
    assert_eq!(machine.facing(), Direction::Right);
    assert_eq!(machine.head(), Some((0, 2)));
    assert_eq!(machine.waiting_bits(), 0);
    assert_eq!(machine.grid().command_at(0, 2), Command::Output);
    machine.step(None);
    assert_eq!(machine.grid().get(0, 2), Some(Field::Open));
    assert_eq!(machine.waiting_bits(), 1);
    machine.step(None);
    assert!(!machine.is_running());
    assert_eq!(picture(machine.grid()), "...#\n####");
}

#[test]
fn a_cancelled_harvest_leaves_suppress_execute_set() {
    let mut machine = Machine::new(garden("###.\n.#.#"));
    machine.step(None);
    assert!(machine.suppress_harvest());
    assert!(!machine.suppress_execute());
    machine.step(None);
    assert!(!machine.suppress_harvest());
    assert!(!machine.suppress_execute());
}

#[test]
fn eight_reads_and_then_eight_writes_give_the_byte_back() {
    let mut machine = Machine::new(garden(EIGHT_IN_EIGHT_OUT));
    let (commands, bytes) = walk(&mut machine, &[0b1011_0001], 1000);
    let mut expected = vec![Command::TurnRight, Command::TurnLeft];
    expected.extend([Command::Input; 8]);
    expected.extend([Command::Output; 8]);
    expected.push(Command::SuppressExecute);
    assert_eq!(commands, expected);
    assert_eq!(bytes, vec![0b1011_0001]);
    assert!(!machine.is_running());
    assert_eq!(machine.waiting_bits(), 0);
    assert_eq!(
        picture(machine.grid()),
        "#..#....##..###.#..#.##...##.##.\n\
         ..##.#..#####.####..##...#.#.#..\n\
         ...#..####..##...###..#.....#.#."
    );
}

#[test]
fn run_gives_what_stepping_gives() {
    let mut machine = Machine::new(garden(EIGHT_IN_EIGHT_OUT));
    let report = machine.run(&[0b1011_0001, 0xff], 1000);
    assert_eq!(report.output, vec![0b1011_0001]);
    assert_eq!(report.steps, 33);
    assert_eq!(report.consumed, 1);
    assert!(!machine.is_running());
    assert!(machine.suppress_execute());
}

#[test]
fn the_byte_that_is_written_depends_on_the_byte_that_was_read() {
    let mut machine = Machine::new(garden(WRITES_WHAT_IT_READ));
    let report = machine.run(&[0b1011_0001], 1000);
    assert_eq!(report.output, vec![0b1011_0001]);
    assert_eq!(report.steps, 41);
    assert_eq!(report.consumed, 1);
    assert!(!machine.is_running());
    assert_eq!(machine.facing(), Direction::Left);
    assert_eq!(
        picture(machine.grid()),
        "#####..#.#####.##...\n\
         ###..#..#...###..##.\n\
         #....#.##.##...#..#.\n\
         ##.###..#...#.#.##.#"
    );

    let mut other = Machine::new(garden(WRITES_WHAT_IT_READ));
    let report = other.run(&[0b0100_1110], 1000);
    assert_eq!(report.output, Vec::<u8>::new());
    assert_eq!(report.steps, 14);
    assert_eq!(report.consumed, 1);
    assert!(!other.is_running());
    assert!(other.suppress_harvest());
    assert_eq!(other.facing(), Direction::Down);

    let mut unfed = Machine::new(garden(WRITES_WHAT_IT_READ));
    let report = unfed.run(&[], 1000);
    assert_eq!(report.output, Vec::<u8>::new());
    assert_eq!(report.steps, 41);
    assert_eq!(report.consumed, 0);
    assert_eq!(unfed.waiting_bits(), 2);
}

#[test]
fn input_bits_come_least_significant_first_and_a_one_plants_the_field_again() {
    let mut machine = Machine::new(garden(NINE_READS));
    let report = machine.run(&[0b1011_0001, 0x01], 1000);
    assert_eq!(report.steps, 20);
    assert_eq!(report.consumed, 2);
    assert_eq!(report.output, Vec::<u8>::new());
    let after = picture(machine.grid());
    assert_eq!(after, "####.##.##.#####.###\n##.##.##.##.##.##.##");
    let read: Vec<char> = [1, 4, 7, 10, 12, 13, 16, 18, 19]
        .iter()
        .map(|c| after.chars().nth(*c).unwrap())
        .collect();
    assert_eq!(read, vec!['#', '.', '.', '.', '#', '#', '.', '#', '#']);
}

#[test]
fn the_ninth_read_takes_a_second_byte() {
    let mut machine = Machine::new(garden(NINE_READS));
    let (commands, _) = walk(&mut machine, &[0b1011_0001, 0x00], 1000);
    assert_eq!(commands, vec![Command::Input; 9]);
    assert_eq!(picture(machine.grid()), "####.##.##.#####.##.\n##.##.##.##.##.##.##");
    let mut again = Machine::new(garden(NINE_READS));
    assert_eq!(again.run(&[0b1011_0001, 0x00, 0x55], 1000).consumed, 2);
}

#[test]
fn a_read_from_an_exhausted_source_does_nothing() {
    let mut machine = Machine::new(garden(NINE_READS));
    let report = machine.run(&[0b1011_0001], 1000);
    assert_eq!(report.steps, 20);
    assert_eq!(report.consumed, 1);
    assert_eq!(picture(machine.grid()), "####.##.##.#####.##.\n##.##.##.##.##.##.##");
    assert!(!machine.is_running());
}

#[test]
fn every_read_from_an_exhausted_source_asks_again() {
    let mut machine = Machine::new(garden(NINE_READS));
    let mut asked = 0;
    let mut commands = Vec::new();
    while machine.is_running() {
        let (r, c) = machine.head().unwrap();
        if machine.awaits_input() {
            asked += 1;
            assert_eq!(machine.grid().command_at(r, c), Command::Input);
            commands.push((r, c));
        }
        assert_eq!(machine.step(None), None);
    }
    assert_eq!(asked, 6);
    assert_eq!(commands, vec![(0, 1), (0, 4), (0, 7), (0, 10), (0, 12), (0, 18)]);
    assert_eq!(picture(machine.grid()), "#.##.##.##.#..##.#..\n##.##.##.##.##.##.##");
    assert!(machine.suppress_execute());
}

#[test]
fn a_byte_is_asked_for_only_when_the_last_one_is_used_up() {
    let mut machine = Machine::new(garden(NINE_READS));
    let mut asked_at = Vec::new();
    let mut steps = 0;
    let input = [0b1011_0001u8, 0x01];
    let mut next = 0;
    while machine.is_running() {
        let mut fresh = None;
        if machine.awaits_input() {
            asked_at.push(steps);
            fresh = Some(input[next]);
            next += 1;
        }
        machine.step(fresh);
        steps += 1;
    }
    assert_eq!(asked_at, vec![1, 19]);
}

#[test]
fn a_byte_offered_to_a_step_that_does_not_ask_is_ignored() {
    let mut machine = Machine::new(garden(NINE_READS));
    assert!(!machine.awaits_input());
    assert_eq!(machine.step(Some(0xff)), None);
    assert!(machine.awaits_input());
    assert_eq!(machine.step(Some(0b1011_0001)), None);
    assert_eq!(machine.grid().get(0, 1), Some(Field::Planted));
    let report = machine.run(&[0x01], 1000);
    assert_eq!(report.consumed, 1);
    assert_eq!(picture(machine.grid()), "####.##.##.#####.###\n##.##.##.##.##.##.##");
}

#[test]
fn eleven_bits_give_one_byte_and_the_rest_is_lost() {
    let mut machine = Machine::new(garden(ELEVEN_WRITES));
    let (commands, bytes) = walk(&mut machine, &[], 1000);
    assert_eq!(commands, vec![Command::Output; 11]);
    assert_eq!(bytes, vec![0b0100_1001]);
    assert_eq!(machine.waiting_bits(), 3);
    assert!(!machine.is_running());
    let mut again = Machine::new(garden(ELEVEN_WRITES));
    let report = again.run(&[], 1000);
    assert_eq!(report.output, vec![0b0100_1001]);
    assert_eq!(report.output.len(), 11 / 8);
    assert_eq!(report.steps, 24);
    assert_eq!(picture(again.grid()), ".##..##.##..##.#..##..##\n..#...#.##...#.#...#....");
}

#[test]
fn three_bits_give_no_byte() {
    let mut machine = Machine::new(garden(THREE_WRITES));
    let (commands, bytes) = walk(&mut machine, &[], 1000);
    assert_eq!(commands, vec![Command::Output; 3]);
    assert_eq!(bytes, Vec::<u8>::new());
    assert_eq!(machine.waiting_bits(), 3);
    assert!(!machine.is_running());
    assert_eq!(picture(machine.grid()), "#.#..#\n#.#...");
}

#[test]
fn a_write_with_nothing_ahead_appends_no_bit() {
    let mut edge = Machine::new(garden("#\n."));
    assert_eq!(edge.grid().command_at(0, 0), Command::Output);
    assert_eq!(edge.step(None), None);
    assert_eq!(edge.waiting_bits(), 0);
    assert!(!edge.is_running());
    assert_eq!(picture(edge.grid()), ".\n.");
}

#[test]
fn a_write_appends_the_value_of_the_field_ahead() {
    let mut open_ahead = Machine::new(garden("#.\n.."));
    assert_eq!(open_ahead.grid().command_at(0, 0), Command::Output);
    open_ahead.step(None);
    assert_eq!(open_ahead.waiting_bits(), 1);
    let mut machine = Machine::new(garden(THREE_WRITES));
    let mut waiting = Vec::new();
    while machine.is_running() {
        machine.step(None);
        waiting.push(machine.waiting_bits());
    }
    assert_eq!(waiting, vec![0, 1, 1, 2, 3, 3]);
}

#[test]
fn four_left_turns_bring_the_head_round() {
    let mut machine = Machine::new(garden(TURNS));
    let mut facings = Vec::new();
    let mut commands = Vec::new();
    while machine.is_running() {
        let before = machine.facing();
        let (more, _) = walk(&mut machine, &[], 1);
        if !more.is_empty() {
            commands.push(more[0]);
            facings.push((before, machine.facing()));
        }
    }
    assert_eq!(commands[0], Command::TurnRight);
    assert_eq!(commands[1..].to_vec(), vec![Command::TurnLeft; 6]);
    assert_eq!(facings[0], (Direction::Right, Direction::Down));
    assert_eq!(facings[1], (Direction::Down, Direction::Right));
    assert_eq!(facings[2], (Direction::Right, Direction::Up));
    assert_eq!(facings[3], (Direction::Up, Direction::Left));
    assert_eq!(facings[4], (Direction::Left, Direction::Down));
    assert_eq!(facings[5], (Direction::Down, Direction::Right));
    assert_eq!(facings[6], (Direction::Right, Direction::Up));
    assert_eq!(picture(machine.grid()), ".#.#.\n#..##\n##...\n.##..\n.##.#");
}

#[test]
fn a_turn_takes_effect_in_the_same_step() {
    let mut machine = Machine::new(garden("#.\n#."));
    assert_eq!(machine.grid().command_at(0, 0), Command::TurnLeft);
    machine.step(None);
    assert_eq!(machine.facing(), Direction::Up);
    assert_eq!(machine.head(), None);
    assert_eq!(picture(machine.grid()), "..\n#.");
    let mut down = Machine::new(garden(TURNS));
    down.step(None);
    assert_eq!(down.facing(), Direction::Down);
    assert_eq!(down.head(), Some((1, 0)));
}

#[test]
fn a_run_stops_when_its_budget_is_used_up_and_can_be_taken_up_again() {
    let mut machine = Machine::new(garden(EIGHT_IN_EIGHT_OUT));
    let first = machine.run(&[0b1011_0001], 10);
    assert_eq!(first.steps, 10);
    assert_eq!(first.consumed, 1);
    assert_eq!(first.output, Vec::<u8>::new());
    assert!(machine.is_running());
    let none = machine.run(&[], 0);
    assert_eq!((none.steps, none.consumed), (0, 0));
    assert!(machine.is_running());
    let second = machine.run(&[], 15);
    assert_eq!(second.steps, 15);
    assert_eq!(second.output, Vec::<u8>::new());
    assert_eq!(machine.waiting_bits(), 4);
    assert!(machine.is_running());
    let third = machine.run(&[], 1000);
    assert_eq!(third.steps, 8);
    assert_eq!(third.output, vec![0b1011_0001]);
    assert!(!machine.is_running());
    let fourth = machine.run(&[], 1000);
    assert_eq!(fourth.steps, 0);
    assert_eq!(fourth.output, Vec::<u8>::new());
}

#[test]
fn the_head_leaves_exactly_when_the_run_ends_short_of_its_budget() {
    for budget in 0..40usize {
        let mut machine = Machine::new(garden(EIGHT_IN_EIGHT_OUT));
        let report = machine.run(&[0b1011_0001], budget);
        assert_eq!(report.steps, budget.min(33));
        assert_eq!(machine.is_running(), budget < 33);
        assert_eq!(report.output.len(), if budget >= 32 { 1 } else { 0 });
    }
}
