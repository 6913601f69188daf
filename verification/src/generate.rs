//! Rendering of the generated program's full source text.
//!
//! The output is one coherent program: startup credential resolution
//! (environment first, then the embedded XOR-masked material, else a fatal
//! error), standard-input ingestion and placeholder substitution when any
//! argument is referenced, and a streaming call to the chat-completion
//! protocol.  When no argument is referenced the ingestion and substitution
//! logic is absent from the output entirely, not merely disabled.

use crate::escape::escape_rust_string;
use crate::escape::escaped;
use crate::obfuscate::generate_xor_key;
use crate::obfuscate::key_stream;
use crate::obfuscate::xor_encrypt;
use crate::obfuscate::xor_seq;
use crate::parser::join_nl;
use crate::text::append_chars;
use crate::text::append_str;
use crate::text::append_u128;
use crate::text::chars_to_string;
use crate::text::dec_rep;
use vstd::prelude::*;
use vstd::string::StringSliceAdditionalSpecFns;

verus! {

/// The decimal values of `bs` joined by comma-space.
pub open spec fn byte_list(bs: Seq<u8>) -> Seq<char>
    decreases bs.len(),
{
    if bs.len() == 0 {
        Seq::empty()
    } else if bs.len() == 1 {
        dec_rep(bs[0] as nat)
    } else {
        dec_rep(bs[0] as nat) + ", "@ + byte_list(bs.drop_first())
    }
}

pub proof fn lemma_byte_list_push(bs: Seq<u8>, b: u8)
    ensures
        bs.len() == 0 ==> byte_list(bs.push(b)) == dec_rep(b as nat),
        bs.len() > 0 ==> byte_list(bs.push(b)) == byte_list(bs) + ", "@ + dec_rep(b as nat),
    decreases bs.len(),
{
    let p = bs.push(b);
    if bs.len() == 0 {
        assert(p.len() == 1);
        assert(p[0] == b);
    } else if bs.len() == 1 {
        assert(p.len() == 2);
        assert(p.drop_first() =~= seq![b]);
        assert(p[0] == bs[0]);
        assert(byte_list(seq![b]) == dec_rep(b as nat));
    } else {
        lemma_byte_list_push(bs.drop_first(), b);
        assert(p.drop_first() =~= bs.drop_first().push(b));
        assert(byte_list(bs) + ", "@ + dec_rep(b as nat) =~= dec_rep(bs[0] as nat) + ", "@ + (
        byte_list(bs.drop_first()) + ", "@ + dec_rep(b as nat)));
    }
}

/// The decimal values of `bs` joined by comma-space, as `byte_list` states.
pub fn render_byte_list(bs: &Vec<u8>) -> (r: Vec<char>)
    ensures
        r@ == byte_list(bs@),
{
    let n = bs.len();
    let mut r: Vec<char> = Vec::new();
    let mut i: usize = 0;
    while i < n
        invariant
            i <= n,
            n == bs@.len(),
            r@ == byte_list(bs@.subrange(0, i as int)),
        decreases n - i,
    {
        let ghost pre = bs@.subrange(0, i as int);
        if i > 0 {
            append_str(&mut r, ", ");
        }
        append_u128(&mut r, bs[i] as u128);
        proof {
            lemma_byte_list_push(pre, bs@[i as int]);
            assert(pre.push(bs@[i as int]) =~= bs@.subrange(0, i + 1 as int));
            if i > 0 {
                assert(r@ =~= byte_list(pre) + ", "@ + dec_rep(bs@[i as int] as nat));
            }
        }
        i += 1;
    }
    proof {
        assert(bs@.subrange(0, n as int) =~= bs@);
    }
    r
}

/// The largest value in `args`, or zero when it is empty.
pub open spec fn seq_max(args: Seq<usize>) -> usize
    decreases args.len(),
{
    if args.len() == 0 {
        0
    } else {
        let m = seq_max(args.drop_last());
        if args.last() > m {
            args.last()
        } else {
            m
        }
    }
}

/// The largest value in `args`, or zero, as `seq_max` states.
pub fn max_arg(args: &Vec<usize>) -> (r: usize)
    ensures
        r == seq_max(args@),
{
    let n = args.len();
    let mut mx: usize = 0;
    let mut i: usize = 0;
    while i < n
        invariant
            i <= n,
            n == args@.len(),
            mx == seq_max(args@.subrange(0, i as int)),
        decreases n - i,
    {
        proof {
            let post = args@.subrange(0, i + 1 as int);
            assert(post.drop_last() =~= args@.subrange(0, i as int));
            assert(post.last() == args@[i as int]);
        }
        if args[i] > mx {
            mx = args[i];
        }
        i += 1;
    }
    proof {
        assert(args@.subrange(0, n as int) =~= args@);
    }
    mx
}

/// The substitution statement for argument index `i`.
pub open spec fn subst_line(i: usize) -> Seq<char> {
    "    pseudocode = pseudocode.replace(\"{ARG_"@ + dec_rep(i as nat) + "}\", &lines["@ + dec_rep((i - 1) as nat) + "]);"@
}

/// The substitution statements for every index in `args`, in order, joined
/// by newlines.
pub open spec fn subst_block(args: Seq<usize>) -> Seq<char> {
    join_nl(args.map_values(|i: usize| subst_line(i)))
}

/// The standard-input ingestion and substitution section, present exactly
/// when some argument is referenced; it demands the maximum referenced index
/// many input lines.
pub open spec fn arg_reading(args: Seq<usize>) -> Seq<char> {
    let m = seq_max(args) as nat;
    if m == 0 {
        Seq::empty()
    } else {
        "\n    // Check if stdin is available\n    use std::io::{IsTerminal, BufRead};\n    if io::stdin().is_terminal() {\n        eprintln!(\"Error: This program expects "@ + dec_rep(m) + " line(s) from stdin.\\nUsage: echo 'value' | €0 or cat file | €0\");\n        std::process::exit(2);\n    }\n    \n    // Read arguments from stdin\n    let stdin = io::stdin();\n    let mut lines: Vec<String> = Vec::new();\n    for line in stdin.lock().lines() {\n        lines.push(line.expect(\"Failed to read line from stdin\"));\n        if lines.len() >= "@ + dec_rep(m) + " {\n            break;\n        }\n    }\n    \n    if lines.len() < "@ + dec_rep(m) + " {\n        eprintln!(\"Error: Expected "@ + dec_rep(m)
            + " arguments from stdin, got {}\\nUsage: Pipe "@ + dec_rep(m) + " lines into this program, one per line.\", lines.len());\n        std::process::exit(2);\n    }\n    \n    // Substitute placeholders in pseudocode\n    let mut pseudocode = pseudocode.to_string();\n"@ + subst_block(args) + "\n"@
    }
}

/// The complete generated program text, assembled from the embedded
/// credential material, the escaped model and pseudocode, and the
/// argument-ingestion section.
pub open spec fn rendered_program(
    has_key: bool,
    cipher: Seq<u8>,
    ks: Seq<u8>,
    model: Seq<char>,
    code: Seq<char>,
    args: Seq<usize>,
) -> Seq<char> {
    "use std::io::{self, Write};\n\n#[tokio::main]\nasync fn main() {\n    // Try environment variable first, then fall back to embedded key\n    let api_key = if let Ok(env_key) = std::env::var(\"OPENAI_API_KEY\") {\n        env_key\n    } else if "@ + (if has_key {
        "true"@
    } else {
        "false"@
    }) + " {\n        // Decrypt embedded key using XOR\n        let encrypted: Vec<u8> = vec!["@ + byte_list(cipher) + "];\n        let xor_key: Vec<u8> = vec!["@ + byte_list(ks) + "];\n        let decrypted: Vec<u8> = encrypted\n            .iter()\n            .enumerate()\n            .map(|(i, &b)| b ^ xor_key[i % xor_key.len()])\n            .collect();\n        String::from_utf8(decrypted).expect(\"Invalid API key\")\n    } else {\n        eprintln!(\"Error: No API key found. Set OPENAI_API_KEY environment variable.\");\n        std::process::exit(1);\n    };\n    \n    let model = \""@ + escaped(model) + "\";\n    let pseudocode = \""@
        + escaped(code) + "\";"@ + arg_reading(args) + "\n    \n    if let Err(e) = run_openai_stream(&api_key, model, "@ + (if seq_max(args) > 0 {
        "&pseudocode"@
    } else {
        "pseudocode"@
    }) + ").await {\n        eprintln!(\"Error: {}\", e);\n        std::process::exit(1);\n    }\n}\n\nasync fn run_openai_stream(api_key: &str, model: &str, pseudocode: &str) -> Result<(), Box<dyn std::error::Error>> {\n    let prompt = \"You are an assistant that acts as if it were a program written in a language called 'matthiashihic'. This language allows every string to become a new string. Don't take it too literally, and ignore everything that doesn't make sense. If the user asks you to 'say' or 'make' something, for instance, just print it. Answer the code statement as if you had computed them. Do not reply with anything but the result.\";\n    \n    let client = reqwest::Client::new();\n    let request_body = serde_json::json!({\n        \"model\": model,\n        \"messages\": [\n            {\n                \"role\": \"system\",\n                \"content\": prompt\n            },\n            {\n                \"role\": \"user\",\n                \"content\": pseudocode\n            }\n        ],\n        \"stream\": true\n    });\n    \n    let response = client\n        .post(\"https://api.openai.com/v1/chat/completions\")\n        .header(\"Content-Type\", \"application/json\")\n        .header(\"Authorization\", format!(\"Bearer {}\", api_key))\n        .json(&request_body)\n        .send()\n        .await?;\n    \n    if !response.status().is_success() {\n        let status = response.status();\n        let error_text = response.text().await.unwrap_or_else(|_| \"Unknown error\".to_string());\n        return Err(format!(\"OpenAI API error ({}): {}\", status, error_text).into());\n    }\n    \n    use futures_util::StreamExt;\n    let mut stream = response.bytes_stream();\n    let mut buffer = String::new();\n    \n    while let Some(chunk_result) = stream.next().await {\n        let chunk = chunk_result?;\n        let text = String::from_utf8_lossy(&chunk);\n        buffer.push_str(&text);\n        \n        while let Some(newline_pos) = buffer.find('\\n') {\n            let line = buffer[..newline_pos].to_string();\n            buffer = buffer[newline_pos + 1..].to_string();\n            \n            if line.starts_with(\"data: \") {\n                let data = &line[6..];\n                if data.trim() == \"[DONE]\" {\n                    break;\n                }\n                \n                if let Ok(parsed) = serde_json::from_str::<serde_json::Value>(data) {\n                    if let Some(choices) = parsed[\"choices\"].as_array() {\n                        if let Some(choice) = choices.first() {\n                            if let Some(content) = choice[\"delta\"][\"content\"].as_str() {\n                                if !content.is_empty() {\n                                    print!(\"{}\", content);\n                                    io::stdout().flush()?;\n                                }\n                            }\n                        }\n                    }\n                }\n            }\n        }\n    }\n    \n    println!();\n    Ok(())\n}\n"@
}

/// The program text generated when a credential is embedded: the keystream
/// derives from timestamp `n` and the ciphertext is the XOR of the
/// credential's bytes with it.
pub open spec fn generated_with_key(
    pt: Seq<u8>,
    model: Seq<char>,
    code: Seq<char>,
    args: Seq<usize>,
    n: nat,
) -> Seq<char> {
    rendered_program(true, xor_seq(pt, key_stream(n)), key_stream(n), model, code, args)
}

/// The program text generated without a credential: the generated program
/// must then find one in its environment.
pub open spec fn generated_plain(model: Seq<char>, code: Seq<char>, args: Seq<usize>) -> Seq<
    char,
> {
    rendered_program(false, Seq::empty(), Seq::empty(), model, code, args)
}

/// The substitution statements for every index in `args`, as `subst_block`
/// states.
fn render_subst_block(args: &Vec<usize>) -> (r: Vec<char>)
    requires
        forall|k: int| 0 <= k < args@.len() ==> args@[k] >= 1,
    ensures
        r@ == subst_block(args@),
{
    let n = args.len();
    let mut r: Vec<char> = Vec::new();
    let mut i: usize = 0;
    proof {
        assert(args@.subrange(0, 0).map_values(|x: usize| subst_line(x))
            =~= Seq::<Seq<char>>::empty());
    }
    while i < n
        invariant
            i <= n,
            n == args@.len(),
            forall|k: int| 0 <= k < args@.len() ==> args@[k] >= 1,
            r@ == subst_block(args@.subrange(0, i as int)),
        decreases n - i,
    {
        let ghost pre = args@.subrange(0, i as int).map_values(|x: usize| subst_line(x));
        let ghost r0 = r@;
        if i > 0 {
            r.push('\n');
        }
        append_str(&mut r, "    pseudocode = pseudocode.replace(\"{ARG_");
        append_u128(&mut r, args[i] as u128);
        append_str(&mut r, "}\", &lines[");
        append_u128(&mut r, (args[i] - 1) as u128);
        append_str(&mut r, "]);");
        proof {
            crate::parser::lemma_join_push(pre, subst_line(args@[i as int]));
            assert(args@.subrange(0, i + 1 as int).map_values(|x: usize| subst_line(x))
                =~= pre.push(subst_line(args@[i as int])));
            assert(pre.len() == i);
            if i > 0 {
                assert(r@ =~= join_nl(pre) + seq!['\n'] + subst_line(args@[i as int]));
            } else {
                assert(r@ =~= subst_line(args@[i as int]));
            }
        }
        i += 1;
    }
    proof {
        assert(args@.subrange(0, n as int) =~= args@);
    }
    r
}

/// Renders the full text of the generated program.  When a credential is
/// given, a fresh time-seeded keystream masks it and both byte sequences
/// are embedded; the model and pseudocode are escaped for embedding; and
/// the input-ingestion section appears exactly when `required_args` is
/// non-empty.  Argument indices are 1-based.
#[verifier::rlimit(60)]
pub fn generate_executable_source(
    api_key: Option<&str>,
    model: &str,
    pseudocode: &str,
    required_args: &Vec<usize>,
) -> (r: String)
    requires
        forall|k: int| 0 <= k < required_args@.len() ==> required_args@[k] >= 1,
    ensures
        match api_key {
            Some(key) => exists|n: nat|
                r@ == generated_with_key(
                    key.spec_bytes(),
                    model@,
                    pseudocode@,
                    required_args@,
                    n,
                ),
            None => r@ == generated_plain(model@, pseudocode@, required_args@),
        },
{
    let mut has_key = false;
    let mut cipher: Vec<u8> = Vec::new();
    let mut ks: Vec<u8> = Vec::new();
    let ghost mut nanos: nat = 0;
    match api_key {
        Some(key) => {
            let ksv = generate_xor_key();
            proof {
                nanos = choose|n: nat| ksv@ == key_stream(n);
            }
            cipher = xor_encrypt(key, ksv.as_slice());
            ks = ksv;
            has_key = true;
        },
        None => {},
    }
    let escaped_model = escape_rust_string(model);
    let escaped_code = escape_rust_string(pseudocode);
    let mx = max_arg(required_args);
    let mut out: Vec<char> = Vec::new();
    append_str(&mut out, "use std::io::{self, Write};\n\n#[tokio::main]\nasync fn main() {\n    // Try environment variable first, then fall back to embedded key\n    let api_key = if let Ok(env_key) = std::env::var(\"OPENAI_API_KEY\") {\n        env_key\n    } else if ");
    if has_key {
        append_str(&mut out, "true");
    } else {
        append_str(&mut out, "false");
    }
    append_str(&mut out, " {\n        // Decrypt embedded key using XOR\n        let encrypted: Vec<u8> = vec![");
    let cipher_text = render_byte_list(&cipher);
    append_chars(&mut out, &cipher_text);
    append_str(&mut out, "];\n        let xor_key: Vec<u8> = vec![");
    let ks_text = render_byte_list(&ks);
    append_chars(&mut out, &ks_text);
    append_str(&mut out, "];\n        let decrypted: Vec<u8> = encrypted\n            .iter()\n            .enumerate()\n            .map(|(i, &b)| b ^ xor_key[i % xor_key.len()])\n            .collect();\n        String::from_utf8(decrypted).expect(\"Invalid API key\")\n    } else {\n        eprintln!(\"Error: No API key found. Set OPENAI_API_KEY environment variable.\");\n        std::process::exit(1);\n    };\n    \n    let model = \"");
    append_str(&mut out, escaped_model.as_str());
    append_str(&mut out, "\";\n    let pseudocode = \"");
    append_str(&mut out, escaped_code.as_str());
    append_str(&mut out, "\";");
    if mx > 0 {
        append_str(&mut out, "\n    // Check if stdin is available\n    use std::io::{IsTerminal, BufRead};\n    if io::stdin().is_terminal() {\n        eprintln!(\"Error: This program expects ");
        append_u128(&mut out, mx as u128);
        append_str(&mut out, " line(s) from stdin.\\nUsage: echo 'value' | €0 or cat file | €0\");\n        std::process::exit(2);\n    }\n    \n    // Read arguments from stdin\n    let stdin = io::stdin();\n    let mut lines: Vec<String> = Vec::new();\n    for line in stdin.lock().lines() {\n        lines.push(line.expect(\"Failed to read line from stdin\"));\n        if lines.len() >= ");
        append_u128(&mut out, mx as u128);
        append_str(&mut out, " {\n            break;\n        }\n    }\n    \n    if lines.len() < ");
        append_u128(&mut out, mx as u128);
        append_str(&mut out, " {\n        eprintln!(\"Error: Expected ");
        append_u128(&mut out, mx as u128);
        append_str(&mut out, " arguments from stdin, got {}\\nUsage: Pipe ");
        append_u128(&mut out, mx as u128);
        append_str(&mut out, " lines into this program, one per line.\", lines.len());\n        std::process::exit(2);\n    }\n    \n    // Substitute placeholders in pseudocode\n    let mut pseudocode = pseudocode.to_string();\n");
        let subst = render_subst_block(required_args);
        append_chars(&mut out, &subst);
        append_str(&mut out, "\n");
    }
    append_str(&mut out, "\n    \n    if let Err(e) = run_openai_stream(&api_key, model, ");
    if mx > 0 {
        append_str(&mut out, "&pseudocode");
    } else {
        append_str(&mut out, "pseudocode");
    }
    append_str(&mut out, ").await {\n        eprintln!(\"Error: {}\", e);\n        std::process::exit(1);\n    }\n}\n\nasync fn run_openai_stream(api_key: &str, model: &str, pseudocode: &str) -> Result<(), Box<dyn std::error::Error>> {\n    let prompt = \"You are an assistant that acts as if it were a program written in a language called 'matthiashihic'. This language allows every string to become a new string. Don't take it too literally, and ignore everything that doesn't make sense. If the user asks you to 'say' or 'make' something, for instance, just print it. Answer the code statement as if you had computed them. Do not reply with anything but the result.\";\n    \n    let client = reqwest::Client::new();\n    let request_body = serde_json::json!({\n        \"model\": model,\n        \"messages\": [\n            {\n                \"role\": \"system\",\n                \"content\": prompt\n            },\n            {\n                \"role\": \"user\",\n                \"content\": pseudocode\n            }\n        ],\n        \"stream\": true\n    });\n    \n    let response = client\n        .post(\"https://api.openai.com/v1/chat/completions\")\n        .header(\"Content-Type\", \"application/json\")\n        .header(\"Authorization\", format!(\"Bearer {}\", api_key))\n        .json(&request_body)\n        .send()\n        .await?;\n    \n    if !response.status().is_success() {\n        let status = response.status();\n        let error_text = response.text().await.unwrap_or_else(|_| \"Unknown error\".to_string());\n        return Err(format!(\"OpenAI API error ({}): {}\", status, error_text).into());\n    }\n    \n    use futures_util::StreamExt;\n    let mut stream = response.bytes_stream();\n    let mut buffer = String::new();\n    \n    while let Some(chunk_result) = stream.next().await {\n        let chunk = chunk_result?;\n        let text = String::from_utf8_lossy(&chunk);\n        buffer.push_str(&text);\n        \n        while let Some(newline_pos) = buffer.find('\\n') {\n            let line = buffer[..newline_pos].to_string();\n            buffer = buffer[newline_pos + 1..].to_string();\n            \n            if line.starts_with(\"data: \") {\n                let data = &line[6..];\n                if data.trim() == \"[DONE]\" {\n                    break;\n                }\n                \n                if let Ok(parsed) = serde_json::from_str::<serde_json::Value>(data) {\n                    if let Some(choices) = parsed[\"choices\"].as_array() {\n                        if let Some(choice) = choices.first() {\n                            if let Some(content) = choice[\"delta\"][\"content\"].as_str() {\n                                if !content.is_empty() {\n                                    print!(\"{}\", content);\n                                    io::stdout().flush()?;\n                                }\n                            }\n                        }\n                    }\n                }\n            }\n        }\n    }\n    \n    println!();\n    Ok(())\n}\n");
    proof {
        assert(out@ =~= rendered_program(
            has_key,
            cipher@,
            ks@,
            model@,
            pseudocode@,
            required_args@,
        ));
        match api_key {
            Some(key) => {
                assert(ks@ == key_stream(nanos));
                assert(cipher@ == xor_seq(key.spec_bytes(), ks@));
                assert(out@ == generated_with_key(
                    key.spec_bytes(),
                    model@,
                    pseudocode@,
                    required_args@,
                    nanos,
                ));
            },
            None => {
                assert(out@ == generated_plain(model@, pseudocode@, required_args@));
            },
        }
    }
    chars_to_string(&out)
}

} // verus!
