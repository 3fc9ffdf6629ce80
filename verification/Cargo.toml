[package]
name = "crud_lambda"
version = "0.1.0"
edition = "2021"
publish = false

[dependencies]
uuid = { version = "*", features = ["v4"] }
serde_json = "*"
aws-config = "*"
aws-sdk-dynamodb = "*"
axum = "*"
lambda_http = "*"
serde_dynamo = { version = "*", features = ["aws-sdk-dynamodb+1"] }
tokio = { version = "*", features = ["macros", "rt-multi-thread"] }
tower-http = { version = "*", features = ["cors"] }
