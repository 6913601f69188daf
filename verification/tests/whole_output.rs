use matthiashihic::generate::generate_executable_source;

// The expected program text, laid out here independently so the whole output
// is pinned byte for byte, not only probed for fragments.
fn expected_source(model: &str, pseudocode: &str, required_args: &[usize]) -> String {
    let escaped_model = esc(model);
    let escaped_code = esc(pseudocode);
    let max_arg = required_args.iter().max().copied().unwrap_or(0);
    let arg_reading_code = if max_arg > 0 {
        let substitutions = required_args
            .iter()
            .map(|&i| format!("    pseudocode = pseudocode.replace(\"{{ARG_{}}}\", &lines[{}]);", i, i - 1))
            .collect::<Vec<_>>()
            .join("\n");
        format!(r#"
    // Check if stdin is available
    use std::io::{{IsTerminal, BufRead}};
    if io::stdin().is_terminal() {{
        eprintln!("Error: This program expects {} line(s) from stdin.\nUsage: echo 'value' | €0 or cat file | €0");
        std::process::exit(2);
    }}
    
    // Read arguments from stdin
    let stdin = io::stdin();
    let mut lines: Vec<String> = Vec::new();
    for line in stdin.lock().lines() {{
        lines.push(line.expect("Failed to read line from stdin"));
        if lines.len() >= {} {{
            break;
        }}
    }}
    
    if lines.len() < {} {{
        eprintln!("Error: Expected {} arguments from stdin, got {{}}\nUsage: Pipe {} lines into this program, one per line.", lines.len());
        std::process::exit(2);
    }}
    
    // Substitute placeholders in pseudocode
    let mut pseudocode = pseudocode.to_string();
{}
"#, max_arg, max_arg, max_arg, max_arg, max_arg, substitutions)
    } else {
        String::new()
    };
    let pseudocode_var = if max_arg > 0 { "&pseudocode" } else { "pseudocode" };
    format!(
r###"use std::io::{{self, Write}};

#[tokio::main]
async fn main() {{
    // Try environment variable first, then fall back to embedded key
    let api_key = if let Ok(env_key) = std::env::var("OPENAI_API_KEY") {{
        env_key
    }} else if {} {{
        // Decrypt embedded key using XOR
        let encrypted: Vec<u8> = vec![{}];
        let xor_key: Vec<u8> = vec![{}];
        let decrypted: Vec<u8> = encrypted
            .iter()
            .enumerate()
            .map(|(i, &b)| b ^ xor_key[i % xor_key.len()])
            .collect();
        String::from_utf8(decrypted).expect("Invalid API key")
    }} else {{
        eprintln!("Error: No API key found. Set OPENAI_API_KEY environment variable.");
        std::process::exit(1);
    }};
    
    let model = "{}";
    let pseudocode = "{}";{}
    
    if let Err(e) = run_openai_stream(&api_key, model, {}).await {{
        eprintln!("Error: {{}}", e);
        std::process::exit(1);
    }}
}}

async fn run_openai_stream(api_key: &str, model: &str, pseudocode: &str) -> Result<(), Box<dyn std::error::Error>> {{
    let prompt = "You are an assistant that acts as if it were a program written in a language called 'matthiashihic'. This language allows every string to become a new string. Don't take it too literally, and ignore everything that doesn't make sense. If the user asks you to 'say' or 'make' something, for instance, just print it. Answer the code statement as if you had computed them. Do not reply with anything but the result.";
    
    let client = reqwest::Client::new();
    let request_body = serde_json::json!({{
        "model": model,
        "messages": [
            {{
                "role": "system",
                "content": prompt
            }},
            {{
                "role": "user",
                "content": pseudocode
            }}
        ],
        "stream": true
    }});
    
    let response = client
        .post("https://api.openai.com/v1/chat/completions")
        .header("Content-Type", "application/json")
        .header("Authorization", format!("Bearer {{}}", api_key))
        .json(&request_body)
        .send()
        .await?;
    
    if !response.status().is_success() {{
        let status = response.status();
        let error_text = response.text().await.unwrap_or_else(|_| "Unknown error".to_string());
        return Err(format!("OpenAI API error ({{}}): {{}}", status, error_text).into());
    }}
    
    use futures_util::StreamExt;
    let mut stream = response.bytes_stream();
    let mut buffer = String::new();
    
    while let Some(chunk_result) = stream.next().await {{
        let chunk = chunk_result?;
        let text = String::from_utf8_lossy(&chunk);
        buffer.push_str(&text);
        
        while let Some(newline_pos) = buffer.find('\n') {{
            let line = buffer[..newline_pos].to_string();
            buffer = buffer[newline_pos + 1..].to_string();
            
            if line.starts_with("data: ") {{
                let data = &line[6..];
                if data.trim() == "[DONE]" {{
                    break;
                }}
                
                if let Ok(parsed) = serde_json::from_str::<serde_json::Value>(data) {{
                    if let Some(choices) = parsed["choices"].as_array() {{
                        if let Some(choice) = choices.first() {{
                            if let Some(content) = choice["delta"]["content"].as_str() {{
                                if !content.is_empty() {{
                                    print!("{{}}", content);
                                    io::stdout().flush()?;
                                }}
                            }}
                        }}
                    }}
                }}
            }}
        }}
    }}
    
    println!();
    Ok(())
}}
"###, false, "", "", escaped_model, escaped_code, arg_reading_code, pseudocode_var)
}

fn esc(s: &str) -> String {
    s.replace('\\', "\\\\")
        .replace('"', "\\\"")
        .replace('\n', "\\n")
        .replace('\r', "\\r")
        .replace('\t', "\\t")
}

#[test]
fn whole_output_matches_expected_text_without_arguments() {
    let out = generate_executable_source(None, "gpt-4o", "say \"hi\"\nand more", &Vec::new());
    assert_eq!(out, expected_source("gpt-4o", "say \"hi\"\nand more", &[]));
}

#[test]
fn whole_output_matches_expected_text_with_arguments() {
    let args = vec![1, 3];
    let out = generate_executable_source(None, "gpt-4", "mix {ARG_1} with {ARG_3}", &args);
    assert_eq!(out, expected_source("gpt-4", "mix {ARG_1} with {ARG_3}", &[1, 3]));
}
