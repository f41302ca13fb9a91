//! The reports, run on sample inputs.

use datetimescan::printer::Printer;
use datetimescan::subcommands::{count, deltas, locate, splits, sum, Clock, Failure, Options};
use datetimescan::timestamp::Timestamp;

fn sample(lines: &[&str]) -> Vec<String> {
    lines.iter().map(|line| line.to_string()).collect()
}

fn empty_input() -> Vec<String> {
    Vec::new()
}

fn iso_datetimes_1() -> Vec<String> {
    sample(&[
        "2023-05-05T19:34:42+1000 entry",
        "2023-05-05T19:35:23+1000 entry",
        "##########2023-05-05T19:35:44+1000 entry",
        "2023-05-05T19:36:18+1000 entry",
        "2023-05-05T19:36:35+1000 entry",
    ])
}

fn iso_datetimes_2() -> Vec<String> {
    sample(&[
        "##########2023-04-19T22:07:40AEST entry",
        "2023-04-19T22:08:16AEST entry",
        "",
        "##########2023-04-19T22:11:06AEST entry",
        "",
        "2999-04-19T22:12:54AEST entry",
        "",
        "",
        "",
        "2023-04-19T22:14:15AEST entry",
        "",
        "######2023-04-19T22:14:20AEST entry",
        "2023-04-19T22:15:31AEST entry",
        "",
        "#########2023-04-19T22:15:58AEST entry",
        "2023-04-19T22:16:28AEST entry",
        "",
        "2023-04-19T22:16:51AEST entry",
        "2023-04-19T22:18:19AEST entry",
        "",
        "######2023-04-19T22:19:41AEST entry",
        "2023-04-19T22:19:55AEST entry",
        "",
        "#########2023-04-19T22:21:07AEST entry",
        "######2023-04-19T22:20:05AEST entry",
        "2023-04-19T22:23:14AEST entry",
        "",
        "2023-04-19T22:26:27AEST entry",
        "2023-04-19T22:26:44AEST entry",
        "",
        "2023-04-19T22:27:55AEST entry",
        "2023-04-19T22:29:20AEST entry",
        "",
        "#########2023-04-19T22:29:43AEST entry",
        "2023-04-19T22:30:08AEST entry",
        "",
        "2023-04-19T22:30:35AEST entry",
        "2023-04-19T22:31:13AEST entry",
        "2023-04-19T22:32:48AEST entry",
        "",
        "2023-04-19T22:32:56AEST entry",
        "##########2023-04-19T22:33:10AEST entry",
        "######2023-04-19T22:33:51AEST entry",
        "2023-04-19T22:34:40AEST entry",
        "",
        "######2023-04-19T22:35:03AEST entry",
        "2023-04-19T22:35:42AEST entry",
        "",
        "#########2023-04-19T22:37:19AEST entry",
        "2023-04-19T22:38:07AEST entry",
        "",
        "2023-04-19T22:38:14AEST entry",
        "2023-04-19T22:38:40AEST entry",
        "",
        "2023-04-19T22:39:01AEST entry",
        "2023-04-19T22:39:32AEST entry",
        "",
        "",
        "2023-04-19T22:40:00AEST entry",
        "2023-04-19T22:40:05AEST entry",
        "2023-04-19T22:40:31AEST entry",
        "",
        "2023-04-19T23:21:37AEST entry",
        "2023-04-19T23:21:47AEST entry",
        "",
        "",
        "2023-04-19T23:22:02AEST entry",
        "2023-04-19T23:22:36AEST entry",
        "2023-04-19T23:23:04AEST entry",
        "",
        "##########2023-04-19T23:28:52AEST entry",
        "",
        "#######2023-04-19T23:29:19AEST entry",
        "2023-04-19T23:29:34AEST entry",
        "",
        "######2023-04-19T23:29:49AEST entry",
        "2023-04-19T23:30:35AEST entry",
        "",
        "",
        "2023-04-19T23:31:23AEST entry",
        "2023-04-19T23:32:58AEST entry",
        "",
        "######2023-04-19T23:33:18AEST entry",
        "2023-04-19T23:34:10AEST entry",
        "",
        "2023-04-19T23:45:06AEST entry",
        "2023-04-19T23:45:13AEST entry",
    ])
}

fn options_of(args: &[&str]) -> Options {
    let mut options = Options {
        filter_start: None,
        filter_end: None,
        filter_invert: false,
        no_future: false,
        no_unsorted: false,
        per: "all".to_string(),
        allow_negative: false,
        timeout: 300,
        unit: "s".to_string(),
        no_locations: false,
    };
    let mut i = 2;
    while i < args.len() {
        match args[i] {
            "--filter_start" => {
                options.filter_start = Some(args[i + 1].to_string());
                i += 1;
            }
            "--filter_end" => {
                options.filter_end = Some(args[i + 1].to_string());
                i += 1;
            }
            "--filter_invert" => options.filter_invert = true,
            "--no_future" => options.no_future = true,
            "--no_unsorted" => options.no_unsorted = true,
            "--no_locations" => options.no_locations = true,
            "--allow_negative" => options.allow_negative = true,
            "--per" => {
                options.per = args[i + 1].to_string();
                i += 1;
            }
            "--timeout" => {
                options.timeout = args[i + 1].parse().unwrap();
                i += 1;
            }
            "--unit" => {
                options.unit = args[i + 1].to_string();
                i += 1;
            }
            other => panic!("unknown argument {}", other),
        }
        i += 1;
    }
    options
}

fn texts(timestamps: &[Timestamp]) -> Vec<String> {
    timestamps.iter().map(|t| format!("{:?}", t)).collect()
}

fn stop(failure: Failure) {
    match failure {
        Failure::Unparseable(strs) => panic!("failed to parse datetimes_strs=({:?})", strs),
        Failure::InvalidFilterStart(text) => panic!("invalid filter_start=({})", text),
        Failure::InvalidFilterEnd(text) => panic!("invalid filter_end=({})", text),
        Failure::Future(listed) => panic!("reject future_datetimes=({:?})", texts(&listed)),
        Failure::Unsorted(listed) => {
            panic!("reject out_of_order_datetimes=({:?})", texts(&listed))
        }
        Failure::UnknownInterval(per) => panic!("unsupported interval=({}) (must be d/m/y)", per),
        Failure::UnknownUnit(unit) => {
            panic!("unit=({}) must equal 'hms' / 'h' / 'm' / 's'", unit)
        }
        Failure::TooLong => panic!("a period is too long"),
    }
}

fn run(args: &[&str], lines: &Vec<String>, expected: &str) {
    let options = options_of(args);
    let clock = Clock::now();
    let mut printer = Printer::new();
    let outcome = match args[1] {
        "locate" => {
            locate(lines, &options, &mut printer);
            Ok(())
        }
        "count" => count(lines, &options, clock, &mut printer),
        "deltas" => deltas(lines, &options, clock, &mut printer),
        "splits" => splits(lines, &options, clock, &mut printer),
        "sum" => sum(lines, &options, clock, &mut printer),
        _ => panic!("wrong subcommand"),
    };
    if let Err(failure) = outcome {
        stop(failure);
    }
    assert_eq!(printer.output(), expected);
}

#[test]
fn locate_test_empty_stdin() {
    run(&["datetimescan", "locate"], &empty_input(), "");
}

#[test]
fn locate_test_empty_file() {
    run(&["datetimescan", "locate"], &empty_input(), "");
}

#[test]
fn locate_test_isodatetimes_1() {
    run(&["datetimescan", "locate"], &iso_datetimes_1(), "2023-05-05T19:34:42+1000\t1\t0\n2023-05-05T19:35:23+1000\t2\t0\n2023-05-05T19:35:44+1000\t3\t10\n2023-05-05T19:36:18+1000\t4\t0\n2023-05-05T19:36:35+1000\t5\t0\n");
}

#[test]
fn test_isodatetimes_1_write_to_file() {
    run(&["datetimescan", "locate"], &empty_input(), "");
}

#[test]
fn locate_test_isodatetimes_2() {
    run(&["datetimescan", "locate"], &iso_datetimes_2(), "2023-04-19T22:07:40AEST\t1\t10\n2023-04-19T22:08:16AEST\t2\t0\n2023-04-19T22:11:06AEST\t4\t10\n2999-04-19T22:12:54AEST\t6\t0\n2023-04-19T22:14:15AEST\t10\t0\n2023-04-19T22:14:20AEST\t12\t6\n2023-04-19T22:15:31AEST\t13\t0\n2023-04-19T22:15:58AEST\t15\t9\n2023-04-19T22:16:28AEST\t16\t0\n2023-04-19T22:16:51AEST\t18\t0\n2023-04-19T22:18:19AEST\t19\t0\n2023-04-19T22:19:41AEST\t21\t6\n2023-04-19T22:19:55AEST\t22\t0\n2023-04-19T22:21:07AEST\t24\t9\n2023-04-19T22:20:05AEST\t25\t6\n2023-04-19T22:23:14AEST\t26\t0\n2023-04-19T22:26:27AEST\t28\t0\n2023-04-19T22:26:44AEST\t29\t0\n2023-04-19T22:27:55AEST\t31\t0\n2023-04-19T22:29:20AEST\t32\t0\n2023-04-19T22:29:43AEST\t34\t9\n2023-04-19T22:30:08AEST\t35\t0\n2023-04-19T22:30:35AEST\t37\t0\n2023-04-19T22:31:13AEST\t38\t0\n2023-04-19T22:32:48AEST\t39\t0\n2023-04-19T22:32:56AEST\t41\t0\n2023-04-19T22:33:10AEST\t42\t10\n2023-04-19T22:33:51AEST\t43\t6\n2023-04-19T22:34:40AEST\t44\t0\n2023-04-19T22:35:03AEST\t46\t6\n2023-04-19T22:35:42AEST\t47\t0\n2023-04-19T22:37:19AEST\t49\t9\n2023-04-19T22:38:07AEST\t50\t0\n2023-04-19T22:38:14AEST\t52\t0\n2023-04-19T22:38:40AEST\t53\t0\n2023-04-19T22:39:01AEST\t55\t0\n2023-04-19T22:39:32AEST\t56\t0\n2023-04-19T22:40:00AEST\t59\t0\n2023-04-19T22:40:05AEST\t60\t0\n2023-04-19T22:40:31AEST\t61\t0\n2023-04-19T23:21:37AEST\t63\t0\n2023-04-19T23:21:47AEST\t64\t0\n2023-04-19T23:22:02AEST\t67\t0\n2023-04-19T23:22:36AEST\t68\t0\n2023-04-19T23:23:04AEST\t69\t0\n2023-04-19T23:28:52AEST\t71\t10\n2023-04-19T23:29:19AEST\t73\t7\n2023-04-19T23:29:34AEST\t74\t0\n2023-04-19T23:29:49AEST\t76\t6\n2023-04-19T23:30:35AEST\t77\t0\n2023-04-19T23:31:23AEST\t80\t0\n2023-04-19T23:32:58AEST\t81\t0\n2023-04-19T23:33:18AEST\t83\t6\n2023-04-19T23:34:10AEST\t84\t0\n2023-04-19T23:45:06AEST\t86\t0\n2023-04-19T23:45:13AEST\t87\t0\n");
}

#[test]
fn count_test_empty_stdin() {
    run(&["datetimescan", "count"], &empty_input(), "");
}

#[test]
fn count_test_empty_file() {
    run(&["datetimescan", "count"], &empty_input(), "");
}

#[test]
fn test_empty_file_per_all() {
    run(&["datetimescan", "count", "--per", "all"], &empty_input(), "");
}

#[test]
fn test_empty_file_per_y() {
    run(&["datetimescan", "count", "--per", "y"], &empty_input(), "");
}

#[test]
fn test_empty_file_per_m() {
    run(&["datetimescan", "count", "--per", "m"], &empty_input(), "");
}

#[test]
fn test_empty_file_per_d() {
    run(&["datetimescan", "count", "--per", "d"], &empty_input(), "");
}

#[test]
fn count_test_isodatetimes_1() {
    run(&["datetimescan", "count"], &iso_datetimes_1(), "5\n");
}

#[test]
fn test_isodatetimes_1_no_unsorted() {
    run(&["datetimescan", "count", "--no_unsorted"], &iso_datetimes_1(), "5\n");
}

#[test]
fn test_isodatetimes_1_no_future() {
    run(&["datetimescan", "count", "--no_future"], &iso_datetimes_1(), "5\n");
}

#[test]
fn test_isodatetimes_1_per_all() {
    run(&["datetimescan", "count", "--per", "all"], &iso_datetimes_1(), "5\n");
}

#[test]
fn test_isodatetimes_1_per_y() {
    run(&["datetimescan", "count", "--per", "y"], &iso_datetimes_1(), "2023: 5\n");
}

#[test]
fn test_isodatetimes_1_per_m() {
    run(&["datetimescan", "count", "--per", "m"], &iso_datetimes_1(), "2023-05: 5\n");
}

#[test]
fn test_isodatetimes_1_per_d() {
    run(&["datetimescan", "count", "--per", "d"], &iso_datetimes_1(), "2023-05-05: 5\n");
}

#[test]
fn count_test_isodatetimes_2() {
    run(&["datetimescan", "count"], &iso_datetimes_2(), "56\n");
}

#[test]
fn test_isodatetimes_2_per_all() {
    run(&["datetimescan", "count", "--per", "all"], &iso_datetimes_2(), "56\n");
}

#[test]
fn test_isodatetimes_2_per_y() {
    run(&["datetimescan", "count", "--per", "y"], &iso_datetimes_2(), "2023: 55\n2999: 1\n");
}

#[test]
fn test_isodatetimes_2_per_m() {
    run(&["datetimescan", "count", "--per", "m"], &iso_datetimes_2(), "2023-04: 55\n2999-04: 1\n");
}

#[test]
fn test_isodatetimes_2_per_d() {
    run(&["datetimescan", "count", "--per", "d"], &iso_datetimes_2(), "2023-04-19: 55\n2999-04-19: 1\n");
}

#[test]
#[should_panic(expected = "reject out_of_order_datetimes")]
fn test_isodatetimes_2_no_unsorted() {
    run(&["datetimescan", "count", "--no_unsorted"], &iso_datetimes_2(), "56\n");
}

#[test]
#[should_panic(expected = "reject future_datetimes")]
fn test_isodatetimes_2_no_future() {
    run(&["datetimescan", "count", "--no_future"], &iso_datetimes_2(), "56\n");
}

#[test]
fn deltas_test_empty_file() {
    run(&["datetimescan", "deltas"], &empty_input(), "");
}

#[test]
fn deltas_test_isodatetimes1() {
    run(&["datetimescan", "deltas"], &iso_datetimes_1(), "41\n21\n34\n17\n");
}

#[test]
fn deltas_test_isodatetimes1_no_unsorted() {
    run(&["datetimescan", "deltas", "--no_unsorted"], &iso_datetimes_1(), "41\n21\n34\n17\n");
}

#[test]
fn deltas_test_isodatetimes1_no_future() {
    run(&["datetimescan", "deltas", "--no_future"], &iso_datetimes_1(), "41\n21\n34\n17\n");
}

#[test]
fn deltas_test_isodatetimes2() {
    run(&["datetimescan", "deltas"], &iso_datetimes_2(), "36\n170\n30799612908\n0\n5\n71\n27\n30\n23\n88\n82\n14\n72\n0\n189\n193\n17\n71\n85\n23\n25\n27\n38\n95\n8\n14\n41\n49\n23\n39\n97\n48\n7\n26\n21\n31\n28\n5\n26\n2466\n10\n15\n34\n28\n348\n27\n15\n15\n46\n48\n95\n20\n52\n656\n7\n");
}

#[test]
fn test_isodatetimes2_allow_negative() {
    run(&["datetimescan", "deltas", "--allow_negative"], &iso_datetimes_2(), "36\n170\n30799612908\n-30799612719\n5\n71\n27\n30\n23\n88\n82\n14\n72\n-62\n189\n193\n17\n71\n85\n23\n25\n27\n38\n95\n8\n14\n41\n49\n23\n39\n97\n48\n7\n26\n21\n31\n28\n5\n26\n2466\n10\n15\n34\n28\n348\n27\n15\n15\n46\n48\n95\n20\n52\n656\n7\n");
}

#[test]
#[should_panic(expected = "reject out_of_order_datetimes")]
fn deltas_test_isodatetimes2_no_unsorted() {
    run(&["datetimescan", "deltas", "--no_unsorted"], &iso_datetimes_2(), "");
}

#[test]
#[should_panic(expected = "reject future_datetimes")]
fn deltas_test_isodatetimes2_no_future() {
    run(&["datetimescan", "deltas", "--no_future"], &iso_datetimes_2(), "");
}

#[test]
fn splits_test_empty_file() {
    run(&["datetimescan", "splits"], &empty_input(), "");
}

#[test]
fn splits_test_isodatetimes1() {
    run(&["datetimescan", "splits"], &iso_datetimes_1(), "113\n");
}

#[test]
fn test_isodatetimes1_unit_s() {
    run(&["datetimescan", "splits", "--unit", "s"], &iso_datetimes_1(), "113\n");
}

#[test]
fn test_isodatetimes1_unit_m() {
    run(&["datetimescan", "splits", "--unit", "m"], &iso_datetimes_1(), "1.88\n");
}

#[test]
fn test_isodatetimes1_unit_h() {
    run(&["datetimescan", "splits", "--unit", "h"], &iso_datetimes_1(), "0.03\n");
}

#[test]
fn test_isodatetimes1_unit_hms() {
    run(&["datetimescan", "splits", "--unit", "hms"], &iso_datetimes_1(), "1m53s\n");
}

#[test]
fn splits_test_isodatetimes1_per_all() {
    run(&["datetimescan", "splits", "--per", "all"], &iso_datetimes_1(), "113\n");
}

#[test]
fn splits_test_isodatetimes1_per_y() {
    run(&["datetimescan", "splits", "--per", "y"], &iso_datetimes_1(), "2023: 113\n");
}

#[test]
fn splits_test_isodatetimes1_per_m() {
    run(&["datetimescan", "splits", "--per", "m"], &iso_datetimes_1(), "2023-05: 113\n");
}

#[test]
fn splits_test_isodatetimes1_per_d() {
    run(&["datetimescan", "splits", "--per", "d"], &iso_datetimes_1(), "2023-05-05: 113\n");
}

#[test]
fn test_isodatetimes1_timeout_1() {
    run(&["datetimescan", "splits", "--timeout", "1"], &iso_datetimes_1(), "");
}

#[test]
fn test_isodatetimes1_timeout_30() {
    run(&["datetimescan", "splits", "--timeout", "30"], &iso_datetimes_1(), "21\n17\n");
}

#[test]
fn test_isodatetimes1_timeout_1200() {
    run(&["datetimescan", "splits", "--timeout", "1200"], &iso_datetimes_1(), "113\n");
}

#[test]
fn splits_test_isodatetimes1_no_unsorted() {
    run(&["datetimescan", "splits", "--no_unsorted"], &iso_datetimes_1(), "113\n");
}

#[test]
fn splits_test_isodatetimes1_no_future() {
    run(&["datetimescan", "splits", "--no_future"], &iso_datetimes_1(), "113\n");
}

#[test]
fn splits_test_isodatetimes2() {
    run(&["datetimescan", "splits"], &iso_datetimes_2(), "206\n1638\n87\n318\n7\n");
}

#[test]
fn splits_test_isodatetimes2_unit_s() {
    run(&["datetimescan", "splits", "--unit", "s"], &iso_datetimes_2(), "206\n1638\n87\n318\n7\n");
}

#[test]
fn splits_test_isodatetimes2_unit_m() {
    run(&["datetimescan", "splits", "--unit", "m"], &iso_datetimes_2(), "3.43\n27.30\n1.45\n5.30\n0.12\n");
}

#[test]
fn splits_test_isodatetimes2_unit_h() {
    run(&["datetimescan", "splits", "--unit", "h"], &iso_datetimes_2(), "0.06\n0.46\n0.02\n0.09\n0.00\n");
}

#[test]
fn test_isodatetimes2_unit_hms() {
    run(&["datetimescan", "splits", "--unit", "hms"], &iso_datetimes_2(), "3m26s\n27m18s\n1m27s\n5m18s\n7s\n");
}

#[test]
fn test_isodatetimes2_timeout_1() {
    run(&["datetimescan", "splits", "--timeout", "1"], &iso_datetimes_2(), "");
}

#[test]
fn test_isodatetimes2_timeout_600() {
    run(&["datetimescan", "splits", "--timeout", "600"], &iso_datetimes_2(), "206\n1638\n753\n7\n");
}

#[test]
fn splits_test_isodatetimes2_timeout_1200() {
    run(&["datetimescan", "splits", "--timeout", "1200"], &iso_datetimes_2(), "206\n1638\n1416\n");
}

#[test]
fn splits_test_isodatetimes2_per_y() {
    run(&["datetimescan", "splits", "--per", "y"], &iso_datetimes_2(), "2023: 2033, 87, 318, 7\n");
}

#[test]
fn splits_test_isodatetimes2_per_m() {
    run(&["datetimescan", "splits", "--per", "m"], &iso_datetimes_2(), "2023-04: 2033, 87, 318, 7\n");
}

#[test]
fn splits_test_isodatetimes2_per_d() {
    run(&["datetimescan", "splits", "--per", "d"], &iso_datetimes_2(), "2023-04-19: 2033, 87, 318, 7\n");
}

#[test]
#[should_panic(expected = "reject future_datetimes")]
fn splits_test_isodatetimes2_no_future() {
    run(&["datetimescan", "splits", "--no_future"], &iso_datetimes_2(), "");
}

#[test]
#[should_panic(expected = "reject out_of_order_datetimes")]
fn splits_test_isodatetimes2_no_unsorted() {
    run(&["datetimescan", "splits", "--no_unsorted"], &iso_datetimes_2(), "");
}

#[test]
fn sum_test_empty_stdin() {
    run(&["datetimescan", "sum"], &empty_input(), "");
}

#[test]
fn sum_test_empty_file() {
    run(&["datetimescan", "sum"], &empty_input(), "");
}

#[test]
fn sum_test_isodatetimes1() {
    run(&["datetimescan", "sum"], &iso_datetimes_1(), "113\n");
}

#[test]
fn sum_test_isodatetimes1_no_unsorted() {
    run(&["datetimescan", "sum", "--no_unsorted"], &iso_datetimes_1(), "113\n");
}

#[test]
fn sum_test_isodatetimes1_no_future() {
    run(&["datetimescan", "sum", "--no_future"], &iso_datetimes_1(), "113\n");
}

#[test]
fn sum_test_isodatetimes1_per_all() {
    run(&["datetimescan", "sum", "--per", "all"], &iso_datetimes_1(), "113\n");
}

#[test]
fn sum_test_isodatetimes1_per_y() {
    run(&["datetimescan", "sum", "--per", "y"], &iso_datetimes_1(), "2023: 113\n");
}

#[test]
fn sum_test_isodatetimes1_per_m() {
    run(&["datetimescan", "sum", "--per", "m"], &iso_datetimes_1(), "2023-05: 113\n");
}

#[test]
fn sum_test_isodatetimes1_per_d() {
    run(&["datetimescan", "sum", "--per", "d"], &iso_datetimes_1(), "2023-05-05: 113\n");
}

#[test]
fn sum_test_isodatetimes2() {
    run(&["datetimescan", "sum"], &iso_datetimes_2(), "2256\n");
}

#[test]
fn sum_test_isodatetimes2_unit_s() {
    run(&["datetimescan", "sum", "--unit", "s"], &iso_datetimes_2(), "2256\n");
}

#[test]
fn sum_test_isodatetimes2_unit_m() {
    run(&["datetimescan", "sum", "--unit", "m"], &iso_datetimes_2(), "37.60\n");
}

#[test]
fn sum_test_isodatetimes2_unit_h() {
    run(&["datetimescan", "sum", "--unit", "h"], &iso_datetimes_2(), "0.63\n");
}

#[test]
fn test_isodatetimes2_per_all() {
    run(&["datetimescan", "sum", "--per", "all"], &iso_datetimes_2(), "2256\n");
}

#[test]
fn sum_test_isodatetimes2_per_y() {
    run(&["datetimescan", "sum", "--per", "y"], &iso_datetimes_2(), "2023: 2445\n");
}

#[test]
fn test_isodatetimes2_per_y_unit_s() {
    run(&["datetimescan", "sum", "--per", "y", "--unit", "s"], &iso_datetimes_2(), "2023: 2445\n");
}

#[test]
fn test_isodatetimes2_per_y_unit_m() {
    run(&["datetimescan", "sum", "--per", "y", "--unit", "m"], &iso_datetimes_2(), "2023: 40.75\n");
}

#[test]
fn test_isodatetimes2_per_y_unit_h() {
    run(&["datetimescan", "sum", "--per", "y", "--unit", "h"], &iso_datetimes_2(), "2023: 0.68\n");
}

#[test]
fn sum_test_isodatetimes2_per_m() {
    run(&["datetimescan", "sum", "--per", "m"], &iso_datetimes_2(), "2023-04: 2445\n");
}

#[test]
fn sum_test_isodatetimes2_per_d() {
    run(&["datetimescan", "sum", "--per", "d"], &iso_datetimes_2(), "2023-04-19: 2445\n");
}

#[test]
fn test_isodatetimes2_per_d_unit_s() {
    run(&["datetimescan", "sum", "--per", "d", "--unit", "s"], &iso_datetimes_2(), "2023-04-19: 2445\n");
}

#[test]
fn test_isodatetimes2_per_d_unit_m() {
    run(&["datetimescan", "sum", "--per", "d", "--unit", "m"], &iso_datetimes_2(), "2023-04-19: 40.75\n");
}

#[test]
fn test_isodatetimes2_per_d_unit_h() {
    run(&["datetimescan", "sum", "--per", "d", "--unit", "h"], &iso_datetimes_2(), "2023-04-19: 0.68\n");
}

#[test]
fn test_isodatetimes2_per_d_unit_hms() {
    run(&["datetimescan", "sum", "--per", "d", "--unit", "hms"], &iso_datetimes_2(), "2023-04-19: 40m45s\n");
}

#[test]
fn sum_test_isodatetimes2_timeout_1200() {
    run(&["datetimescan", "sum", "--timeout", "1200"], &iso_datetimes_2(), "3260\n");
}

#[test]
#[should_panic(expected = "reject future_datetimes")]
fn sum_test_isodatetimes2_no_future() {
    run(&["datetimescan", "sum", "--no_future"], &iso_datetimes_2(), "");
}

#[test]
#[should_panic(expected = "reject out_of_order_datetimes")]
fn sum_test_isodatetimes2_no_unsorted() {
    run(&["datetimescan", "sum", "--no_unsorted"], &iso_datetimes_2(), "");
}

fn work_log() -> Vec<String> {
    let days: [(&str, usize); 28] = [
        ("2022-06-05", 5),
        ("2022-06-06", 1),
        ("2022-07-13", 13),
        ("2022-07-14", 2),
        ("2022-09-03", 9),
        ("2022-11-05", 13),
        ("2022-12-11", 8),
        ("2022-12-27", 11),
        ("2023-01-01", 5),
        ("2023-02-20", 15),
        ("2023-03-29", 12),
        ("2023-04-13", 64),
        ("2023-05-01", 20),
        ("2023-05-02", 9),
        ("2023-05-03", 11),
        ("2023-05-04", 4),
        ("2023-05-05", 17),
        ("2023-05-06", 12),
        ("2023-05-08", 9),
        ("2023-05-09", 6),
        ("2023-05-11", 5),
        ("2023-05-14", 29),
        ("2023-05-15", 13),
        ("2023-05-18", 4),
        ("2023-05-19", 9),
        ("2023-05-20", 22),
        ("2023-05-22", 12),
        ("2023-05-23", 6),
    ];
    let mut lines = Vec::new();
    let mut round = 0;
    loop {
        let mut added = false;
        for (i, (day, count)) in days.iter().enumerate().rev() {
            if round < *count {
                let minute = (round * 7 + i) % 60;
                lines.push(format!("{}T12:{:02}:00+0000 work on item {}", day, minute, round));
                added = true;
            }
        }
        if !added {
            break;
        }
        round += 1;
    }
    lines
}

#[test]
fn test_worklog_sample() {
    run(&["datetimescan", "count"], &work_log(), "346\n");
}

#[test]
fn test_worklog_sample_per_all() {
    run(&["datetimescan", "count", "--per", "all"], &work_log(), "346\n");
}

#[test]
fn test_worklog_sample_per_y() {
    run(&["datetimescan", "count", "--per", "y"], &work_log(), "2022: 62\n2023: 284\n");
}

#[test]
fn test_worklog_sample_per_m() {
    run(&["datetimescan", "count", "--per", "m"], &work_log(), "2022-06: 6\n2022-07: 15\n2022-09: 9\n2022-11: 13\n2022-12: 19\n2023-01: 5\n2023-02: 15\n2023-03: 12\n2023-04: 64\n2023-05: 188\n");
}

#[test]
fn test_worklog_sample_per_d() {
    run(&["datetimescan", "count", "--per", "d"], &work_log(), "2022-06-05: 5\n2022-06-06: 1\n2022-07-13: 13\n2022-07-14: 2\n2022-09-03: 9\n2022-11-05: 13\n2022-12-11: 8\n2022-12-27: 11\n2023-01-01: 5\n2023-02-20: 15\n2023-03-29: 12\n2023-04-13: 64\n2023-05-01: 20\n2023-05-02: 9\n2023-05-03: 11\n2023-05-04: 4\n2023-05-05: 17\n2023-05-06: 12\n2023-05-08: 9\n2023-05-09: 6\n2023-05-11: 5\n2023-05-14: 29\n2023-05-15: 13\n2023-05-18: 4\n2023-05-19: 9\n2023-05-20: 22\n2023-05-22: 12\n2023-05-23: 6\n");
}

#[test]
fn test_worklog_sample_per_m_filter() {
    run(&["datetimescan", "count", "--per", "m", "--filter_start", "2022-10-01T00:00:00", "--filter_end", "2023-03-31T23:59:59"], &work_log(), "2022-11: 13\n2022-12: 19\n2023-01: 5\n2023-02: 15\n2023-03: 12\n");
}

#[test]
fn test_worklog_sample_per_m_filter_invert() {
    run(&["datetimescan", "count", "--per", "m", "--filter_invert", "--filter_start", "2022-10-01T00:00:00", "--filter_end", "2023-03-31T23:59:59"], &work_log(), "2022-06: 6\n2022-07: 15\n2022-09: 9\n2023-04: 64\n2023-05: 188\n");
}
