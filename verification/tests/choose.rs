use sqe_core::items::Choose;

fn pair(a: &str, b: &str) -> (String, String) {
    (a.to_string(), b.to_string())
}

fn wiring(name: &str, key_literal: &str) -> String {
    format!(
        "(function() {{\n  if (!window.SQE_ANSWERS) window.SQE_ANSWERS = {{}};\n  const inputs = document.querySelectorAll(\"input[name='{}']\");\n  inputs.forEach(i => {{\n    i.addEventListener('change', function(e) {{\n      const raw = this.dataset.sqeValue;\n      const num = Number(raw);\n      const val = (Number.isFinite(num) && raw !== '') ? num : raw;\n      window.SQE_ANSWERS[{}] = val;\n      document.dispatchEvent(new CustomEvent('sqe:answer', {{ detail: {{ id: {}, value: val }} }}));\n    }});\n  }});\n}}());",
        name, key_literal, key_literal
    )
}

fn option(name: &str, i: usize, label: &str, value: &str) -> String {
    format!(
        "<div><input type=\"radio\" id=\"{id}\" name=\"{name}\" data-sqe-value=\"{value}\"> <label for=\"{id}\">{label}</label></div>",
        id = format!("{}_opt{}", name, i),
        name = name,
        value = value,
        label = label,
    )
}

#[test]
fn choose_with_explicit_values() {
    let c = Choose::parse("Pick one\nRed >> r\nBlue >> b", None);
    assert_eq!(c.id, None);
    assert_eq!(c.question, "Pick one");
    assert_eq!(c.options, vec![pair("Red", "r"), pair("Blue", "b")]);
    assert!(c.addons.is_empty());
    assert!(c.script_lines.is_empty());

    let (html, js) = c.render_html(0, 0);
    assert_eq!(html.matches("<input type=\"radio\"").count(), 2);
    assert_eq!(
        html,
        format!(
            "<fieldset class=\"question\" data-q=\"p0_q0\"><legend>Pick one</legend>{}{}</fieldset>",
            option("p0_q0", 0, "Red", "r"),
            option("p0_q0", 1, "Blue", "b")
        )
    );
    // the value of the input that is picked is stored under the key of the
    // question
    let js = js.unwrap();
    assert_eq!(js, wiring("p0_q0", "\"0_0\""));
    assert!(js.contains("const raw = this.dataset.sqeValue;"));
    assert!(js.contains("window.SQE_ANSWERS[\"0_0\"] = val;"));
}

#[test]
fn choose_with_automatic_values() {
    let c = Choose::parse("Pick one\nRed\nBlue", None);
    assert_eq!(c.options, vec![pair("Red", "0"), pair("Blue", "1")]);
    let (html, js) = c.render_html(2, 3);
    assert!(html.contains("data-sqe-value=\"0\"> <label for=\"p2_q3_opt0\">Red</label>"));
    assert!(html.contains("data-sqe-value=\"1\"> <label for=\"p2_q3_opt1\">Blue</label>"));
    // numeric text is stored as a number
    let js = js.unwrap();
    assert!(js.contains("const num = Number(raw);"));
    assert!(js.contains("const val = (Number.isFinite(num) && raw !== '') ? num : raw;"));
    assert_eq!(js, wiring("p2_q3", "\"2_3\""));
}

#[test]
fn automatic_values_count_only_options_without_value() {
    let c = Choose::parse("Q\nA\nB >> x\nC\nD >> \n >> e\nF", None);
    assert_eq!(
        c.options,
        vec![
            pair("A", "0"),
            pair("B", "x"),
            pair("C", "1"),
            pair("D", ""),
            pair("", "e"),
            pair("F", "2")
        ]
    );
}

#[test]
fn automatic_values_go_past_nine() {
    let mut block = String::from("Q");
    for i in 0..12 {
        block.push_str(&format!("\nopt{}", i));
    }
    let c = Choose::parse(&block, None);
    assert_eq!(c.options.len(), 12);
    assert_eq!(c.options[9], pair("opt9", "9"));
    assert_eq!(c.options[10], pair("opt10", "10"));
    assert_eq!(c.options[11], pair("opt11", "11"));
}

#[test]
fn value_is_split_at_the_first_arrow() {
    let c = Choose::parse("Q\n a >> b >> c ", None);
    assert_eq!(c.options, vec![pair("a", "b >> c")]);
}

#[test]
fn prompt_is_the_first_content_line() {
    let c = Choose::parse("\n   \n  What now?  \n\n  Yes \n", Some("now".to_string()));
    assert_eq!(c.id, Some("now".to_string()));
    assert_eq!(c.question, "What now?");
    assert_eq!(c.options, vec![pair("Yes", "0")]);
}

#[test]
fn block_without_content_gets_the_fixed_prompt() {
    let c = Choose::parse("  \n \n", None);
    assert_eq!(c.question, "⚠ no question found");
    assert!(c.options.is_empty());
    let d = Choose::parse("", None);
    assert_eq!(d.question, "⚠ no question found");
}

#[test]
fn addons_and_scripts() {
    let block = "Q?\nA\nB >> 2\n.addons [\nnote text\nRed >> r\n.script[ alert(1) ]\n.script[\n  let x = 1;\n  x++ ]\n.script\n]\nC";
    let c = Choose::parse(block, None);
    assert_eq!(c.question, "Q?");
    assert_eq!(c.options, vec![pair("A", "0"), pair("B", "2"), pair("C", "1")]);
    assert_eq!(c.addons, vec!["note text", "Red >> r"]);
    assert_eq!(c.script_lines, vec!["alert(1)", "let x = 1;", "x++"]);
}

#[test]
fn script_on_one_line_takes_what_stands_between_the_outer_brackets() {
    let c = Choose::parse("Q\n.addons [\n.script[ a[0] = b[1]; ]\n.script[]\n.script[  ]\n]", None);
    assert_eq!(c.script_lines, vec!["a[0] = b[1];"]);
    assert!(c.addons.is_empty());
}

#[test]
fn script_over_lines_starts_after_the_bracket() {
    let c = Choose::parse("Q\n.addons [\n.script[ first\nsecond\n] ignored\nliteral\n]\nopt", None);
    assert_eq!(c.script_lines, vec!["first", "second"]);
    assert_eq!(c.addons, vec!["literal"]);
    assert_eq!(c.options, vec![pair("opt", "0")]);
}

#[test]
fn script_with_only_an_earlier_closing_bracket_goes_on_in_the_next_lines() {
    let c = Choose::parse("Q\n.addons [\n.script] [x\ny\nz ]\n]", None);
    assert_eq!(c.script_lines, vec!["x", "y", "z"]);
}

#[test]
fn addons_without_end_take_the_rest() {
    let c = Choose::parse("Q\nA\n.addons\none\n.script[ open\ntwo", None);
    assert_eq!(c.options, vec![pair("A", "0")]);
    assert_eq!(c.addons, vec!["one"]);
    assert_eq!(c.script_lines, vec!["open", "two"]);
}

#[test]
fn key_is_the_identifier_or_the_position() {
    let with_id = Choose::parse("Q\nA", Some("color".to_string()));
    assert_eq!(with_id.key(4, 7), "color");
    let empty_id = Choose::parse("Q\nA", Some(String::new()));
    assert_eq!(empty_id.key(4, 7), "4_7");
    let without = Choose::parse("Q\nA", None);
    assert_eq!(without.key(4, 7), "4_7");
    assert_eq!(without.key(10, 0), "10_0");
}

#[test]
fn render_with_identifier_and_user_script() {
    let c = Choose {
        id: Some("fav\"</script>".to_string()),
        question: "Tom & <Jerry>".to_string(),
        options: vec![pair("\"A\"", "1 < 2"), pair("B's", "")],
        addons: vec!["ignored".to_string()],
        script_lines: vec!["console.log(1);".to_string(), "done();".to_string()],
    };
    let (html, js) = c.render_html(1, 12);
    assert_eq!(
        html,
        format!(
            "<fieldset class=\"question\" data-q=\"p1_q12\"><legend>Tom &amp; &lt;Jerry&gt;</legend>{}{}</fieldset>",
            option("p1_q12", 0, "&quot;A&quot;", "1 &lt; 2"),
            option("p1_q12", 1, "B&#x27;s", "")
        )
    );
    let js = js.unwrap();
    let literal = "\"fav\\\"<\\/script>\"";
    assert_eq!(
        js,
        format!(
            "{}\n// user .script lines for this question\nconsole.log(1);\ndone();\n",
            wiring("p1_q12", literal)
        )
    );
    assert!(!js.contains("</script>"));
}

#[test]
fn render_without_options() {
    let c = Choose::parse("Only a prompt", None);
    let (html, js) = c.render_html(0, 0);
    assert_eq!(
        html,
        "<fieldset class=\"question\" data-q=\"p0_q0\"><legend>Only a prompt</legend></fieldset>"
    );
    assert_eq!(js.unwrap(), wiring("p0_q0", "\"0_0\""));
}
