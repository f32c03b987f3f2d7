use fn_time::{Counter, Output, Percent, Stats, StreamData, TimeMsg};
use serde_json::{Deserializer, Number, Value};

fn percent(share: Percent) -> f64 {
    if share.whole > 0 {
        share.part as f64 / share.whole as f64 * 100.0
    } else {
        0.0
    }
}

fn pair(nanos: u64, share: Percent) -> Value {
    Value::Array(vec![
        Value::Number(Number::from(nanos)),
        Value::Number(Number::from_f64(percent(share)).unwrap()),
    ])
}

fn encode(record: &StreamData) -> Value {
    let mut capture = Vec::new();
    for timing in &record.capture {
        let mut entry = serde_json::Map::new();
        entry.insert(String::from("line_number"), Value::Number(Number::from(timing.line_number)));
        entry.insert(
            String::from("top_durations"),
            Value::Array(timing.top_durations.iter().map(|e| pair(e.0, e.1)).collect()),
        );
        entry.insert(
            String::from("average_of_line"),
            pair(timing.average_of_line.0, timing.average_of_line.1),
        );
        capture.push(Value::Object(entry));
    }
    let mut count = Vec::new();
    for counter in &record.count {
        let mut entry = serde_json::Map::new();
        entry.insert(String::from("line"), Value::Number(Number::from(counter.line)));
        entry.insert(String::from("n"), Value::Number(Number::from(counter.n as u64)));
        count.push(Value::Object(entry));
    }
    let mut whole = serde_json::Map::new();
    whole.insert(String::from("capture"), Value::Array(capture));
    whole.insert(String::from("count"), Value::Array(count));
    Value::Object(whole)
}

#[test]
fn records_round_trip_through_an_unseparated_json_stream() {
    let mut stats = Stats::new(1, 3, Output::JSON(String::from("performance.log")));
    let first = TimeMsg {
        times: vec![(12, 0), (15, 200_000_000), (19, 333_333_333)],
        counts: vec![Counter { line: 13, n: 0 }],
    };
    let second = TimeMsg {
        times: vec![(12, 0), (15, 100_000_000), (19, 5_000_000_000)],
        counts: vec![Counter { line: 13, n: 1 }, Counter { line: 20, n: 7 }],
    };
    assert_eq!(stats.top(first).len(), 0);
    let due = stats.top(second);
    assert_eq!(due.len(), 2);

    let mut log = String::new();
    for record in &due {
        log.push_str(&serde_json::to_string(&encode(record)).unwrap());
    }

    let decoded: Vec<Value> =
        Deserializer::from_str(&log).into_iter::<Value>().map(|v| v.unwrap()).collect();
    assert_eq!(decoded.len(), 2);

    let fed: [[(u32, u64); 3]; 2] = [
        [(12, 0), (15, 200_000_000), (19, 333_333_333)],
        [(12, 0), (15, 100_000_000), (19, 5_000_000_000)],
    ];
    for (record, times) in decoded.iter().zip(fed.iter()) {
        let capture = record["capture"].as_array().unwrap();
        assert_eq!(capture.len(), 3);
        for (entry, (line, duration)) in capture.iter().zip(times.iter()) {
            assert_eq!(entry["line_number"].as_u64(), Some(*line as u64));
            let tops = entry["top_durations"].as_array().unwrap();
            assert!(tops.iter().any(|top| top[0].as_u64() == Some(*duration)));
            assert!(tops.len() <= 3);
            assert!(entry["average_of_line"][1].as_f64().is_some());
        }
    }
    assert_eq!(decoded[0]["count"][0]["line"].as_u64(), Some(13));
    assert_eq!(decoded[0]["count"][0]["n"].as_u64(), Some(0));
    assert_eq!(decoded[1]["count"][1]["line"].as_u64(), Some(20));
    assert_eq!(decoded[1]["count"][1]["n"].as_u64(), Some(7));

    // Second reading: 533 333 333 ns over one reading is the reference.
    let last = &decoded[1]["capture"][2];
    assert_eq!(last["top_durations"][0][0].as_u64(), Some(5_000_000_000));
    assert_eq!(last["top_durations"][1][0].as_u64(), Some(333_333_333));
    assert_eq!(last["average_of_line"][0].as_u64(), Some(2_666_666_666));
    let share = last["top_durations"][0][1].as_f64().unwrap();
    assert!((share - 937.5000005859375).abs() < 1e-6);
    let first_share = decoded[0]["capture"][1]["top_durations"][0][1].as_f64().unwrap();
    assert_eq!(first_share, 0.0);
}
