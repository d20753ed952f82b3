use constraint_mux::multiplexer::{frequency_fields, history_lines};

const SAMPLES: &[&str] = &[
    "",
    "\n",
    "\r\n",
    "\r",
    "abc\r",
    "a\r\r\nb",
    "F:440.0\n",
    "F:440.0",
    " \tF:1.5\t \n\nNOTE:C4:261.63\r\nNOTE:X\nNOTE::\nNOTE:a:b:c\n",
    "\u{2003}F:\u{85}\n\u{feff}F:2\n",
    "hello\nworld\n\n\n",
    "F:F:3\nNOTE:NOTE:4:5\nF :6\nnote:A:7",
];

fn expected_fields(text: &str) -> Vec<String> {
    let mut out = Vec::new();
    for line in text.lines() {
        let trimmed = line.trim();
        if let Some(rest) = trimmed.strip_prefix("F:") {
            out.push(rest.to_string());
        } else if let Some(rest) = trimmed.strip_prefix("NOTE:") {
            let parts: Vec<&str> = rest.split(':').collect();
            if parts.len() >= 2 {
                out.push(parts[1].to_string());
            }
        }
    }
    out
}

#[test]
fn fields_agree_with_std_line_handling() {
    for s in SAMPLES {
        assert_eq!(frequency_fields(s), expected_fields(s), "{:?}", s);
    }
}

#[test]
fn history_lines_agree_with_std_lines() {
    for s in SAMPLES {
        let expected: Vec<String> =
            s.lines().filter(|l| !l.is_empty()).map(|l| l.to_string()).collect();
        assert_eq!(history_lines(s), expected, "{:?}", s);
    }
}
