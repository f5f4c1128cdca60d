[package]
name = "minitube"
version = "0.1.0"
edition = "2021"
publish = false

[dependencies]
serde = { version = "*", features = ["derive"] }
serde_json = "*"
json = "=0.12.4"
base64 = "*"
thiserror = "*"
nanoid = "=0.5.0"
common_macros = "=0.1.1"
tokio = { version = "*", features = ["macros", "rt"] }
aws_lambda_events = "=0.4.0"
netlify_lambda = "=0.2.0"
netlify_lambda_http = "=0.2.0"
rusoto_core = { version = "=0.48.0", default-features = false, features = ["rustls"] }
rusoto_credential = "=0.48.0"
rusoto_dynamodb = { version = "=0.48.0", default-features = false, features = ["rustls"] }
rusoto_lambda = { version = "=0.48.0", default-features = false, features = ["rustls"] }
rusoto_rekognition = { version = "=0.48.0", default-features = false, features = ["rustls"] }
rusoto_s3 = { version = "=0.48.0", default-features = false, features = ["rustls"] }
