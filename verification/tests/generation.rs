use matthiashihic::generate::generate_executable_source;
use matthiashihic::obfuscate::generate_xor_key;
use matthiashihic::obfuscate::xor_encrypt;

fn unmask(cipher: &[u8], key: &[u8]) -> Vec<u8> {
    cipher
        .iter()
        .enumerate()
        .map(|(i, &b)| b ^ key[i % key.len()])
        .collect()
}

#[test]
fn xor_round_trip_recovers_plaintext() {
    let key = generate_xor_key();
    let cipher = xor_encrypt("sk-very-secret", &key);
    assert_eq!(unmask(&cipher, &key), b"sk-very-secret".to_vec());
}

#[test]
fn xor_round_trip_with_short_key() {
    let key = vec![0x5a];
    let cipher = xor_encrypt("abc", &key);
    assert_eq!(cipher, vec![b'a' ^ 0x5a, b'b' ^ 0x5a, b'c' ^ 0x5a]);
    assert_eq!(unmask(&cipher, &key), b"abc".to_vec());
}

#[test]
fn xor_of_empty_text_is_empty() {
    assert_eq!(xor_encrypt("", &[]), Vec::<u8>::new());
    assert_eq!(xor_encrypt("", &[7]), Vec::<u8>::new());
}

#[test]
fn xor_key_is_fresh_label_plus_timestamp() {
    let key = generate_xor_key();
    assert!(!key.is_empty());
    let text = String::from_utf8(key).unwrap();
    assert!(text.starts_with("matthiashihic-"));
    assert!(text["matthiashihic-".len()..]
        .chars()
        .all(|c| c.is_ascii_digit()));
}

#[test]
fn generated_text_without_key_has_no_embedded_material() {
    let out = generate_executable_source(None, "gpt-4", "say hello", &Vec::new());
    assert!(out.contains("} else if false {"));
    assert!(out.contains("let encrypted: Vec<u8> = vec![];"));
    assert!(out.contains("let xor_key: Vec<u8> = vec![];"));
    assert!(out.contains("let model = \"gpt-4\";"));
    assert!(out.contains("let pseudocode = \"say hello\";"));
}

#[test]
fn generated_text_embeds_recoverable_key() {
    let out = generate_executable_source(Some("sk-12345"), "gpt-4", "say hi", &Vec::new());
    assert!(out.contains("} else if true {"));
    let cipher = extract_byte_list(&out, "let encrypted: Vec<u8> = vec![");
    let key = extract_byte_list(&out, "let xor_key: Vec<u8> = vec![");
    assert!(!key.is_empty());
    assert_eq!(unmask(&cipher, &key), b"sk-12345".to_vec());
}

fn extract_byte_list(out: &str, prefix: &str) -> Vec<u8> {
    let start = out.find(prefix).expect("list not found") + prefix.len();
    let end = start + out[start..].find(']').expect("list not closed");
    out[start..end]
        .split(", ")
        .filter(|p| !p.is_empty())
        .map(|p| p.parse().unwrap())
        .collect()
}

#[test]
fn no_arguments_means_no_ingestion_logic() {
    let out = generate_executable_source(None, "gpt-4", "say hello", &Vec::new());
    assert!(!out.contains("stdin"));
    assert!(!out.contains("replace"));
    assert!(out.contains("run_openai_stream(&api_key, model, pseudocode).await"));
}

#[test]
fn arguments_demand_the_maximum_index_in_lines() {
    let args = vec![1, 2];
    let out = generate_executable_source(None, "gpt-4", "add {ARG_1} and {ARG_2}", &args);
    assert!(out.contains("This program expects 2 line(s) from stdin."));
    assert!(out.contains("if lines.len() >= 2 {"));
    assert!(out.contains("if lines.len() < 2 {"));
    assert!(out.contains("pseudocode = pseudocode.replace(\"{ARG_1}\", &lines[0]);"));
    assert!(out.contains("pseudocode = pseudocode.replace(\"{ARG_2}\", &lines[1]);"));
    assert!(out.contains("run_openai_stream(&api_key, model, &pseudocode).await"));
}

#[test]
fn sparse_indices_use_their_maximum() {
    let args = vec![5];
    let out = generate_executable_source(None, "gpt-4", "only {ARG_5}", &args);
    assert!(out.contains("This program expects 5 line(s) from stdin."));
    assert!(out.contains("pseudocode = pseudocode.replace(\"{ARG_5}\", &lines[4]);"));
}

#[test]
fn model_and_code_are_escaped_for_embedding() {
    let out = generate_executable_source(None, "gpt\"4\\x", "line1\nline2\t\"q\"", &Vec::new());
    assert!(out.contains("let model = \"gpt\\\"4\\\\x\";"));
    assert!(out.contains("let pseudocode = \"line1\\nline2\\t\\\"q\\\"\";"));
}

#[test]
fn generated_text_carries_the_protocol_call() {
    let out = generate_executable_source(None, "gpt-4", "say hi", &Vec::new());
    assert!(out.contains("https://api.openai.com/v1/chat/completions"));
    assert!(out.contains("\"stream\": true"));
    assert!(out.contains("data: "));
    assert!(out.contains("[DONE]"));
    assert!(out.contains("OPENAI_API_KEY"));
}
