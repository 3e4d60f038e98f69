pub mod llama_client;
